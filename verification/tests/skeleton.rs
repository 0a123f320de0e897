use aleph_bft::nodes::{NodeCount, NodeIndex, NodeMap};
use aleph_bft::skeleton::{
    consensus_terminal, CHUnit, ConsensusConfig, ControlHash, Extender, Message, PostInsertHook,
    Terminal, TerminalAction, Unit, Vertex,
};
use aleph_bft::traits::HashT;

#[derive(Clone, Copy, Debug, PartialEq, Eq, Hash)]
struct Digest(u8);

impl Default for Digest {
    fn default() -> Self {
        Digest(17)
    }
}

impl HashT for Digest {}

fn parents() -> NodeMap<Option<u64>> {
    NodeMap::from_vec(vec![Some(5), None, Some(6)])
}

fn chunit(creator: usize) -> CHUnit<u64> {
    CHUnit::new(NodeIndex(creator), 4, 2, parents())
}

#[test]
fn node_maps() {
    let mask = NodeMap::from_vec(vec![true, false, true, true]);
    assert_eq!(mask.n_set(), NodeCount(3));
    assert_eq!(mask.elements(), vec![NodeIndex(0), NodeIndex(2), NodeIndex(3)]);
    let mut map: NodeMap<Option<u8>> = NodeMap::with_size(NodeCount(3));
    assert_eq!(map.size(), NodeCount(3));
    map.insert(NodeIndex(2), 7);
    map.insert(NodeIndex(0), 9);
    assert_eq!(map.clone().into_values(), vec![9, 7]);
    assert_eq!(*map.get(NodeIndex(1)), None);
    map.set(NodeIndex(0), None);
    assert_eq!(map.into_values(), vec![7]);
    let zeros: NodeMap<u8> = NodeMap::new_with_len(NodeCount(2));
    assert_eq!(zeros, NodeMap::from_vec(vec![0, 0]));
}

#[test]
fn control_hash_counts_members() {
    let control_hash = ControlHash::new(parents());
    assert_eq!(control_hash.n_members(), NodeCount(3));
    let same = ControlHash::new(NodeMap::from_vec(vec![Some(8), None, Some(9)]));
    assert_eq!(control_hash, same);
    assert_ne!(control_hash, ControlHash::new(NodeMap::from_vec(vec![Some(5), Some(1), None])));
    assert_eq!(ControlHash::<u64>::default().n_members(), NodeCount(0));
}

#[test]
fn chunit_says_what_it_was_made_of() {
    let unit = chunit(1);
    assert_eq!(unit.creator(), NodeIndex(1));
    assert_eq!(unit.round(), 4);
    assert_eq!(unit.hash(), 0);
    assert_eq!(unit, unit.clone());
    assert_ne!(unit, chunit(2));
    let custom: CHUnit<Digest> = CHUnit::new(NodeIndex(0), 0, 0, NodeMap::default());
    assert_eq!(custom.hash(), Digest(17));
    assert_eq!(custom, CHUnit::default());
}

#[test]
fn blank_unit_gives_its_chunit_back() {
    let unit = Unit::blank_from_chunit(&chunit(1));
    assert_eq!(unit.creator(), NodeIndex(1));
    let back: CHUnit<u64> = unit.clone().into();
    assert_eq!(back, chunit(1));
    let vertex: Vertex<u64> = unit.into();
    assert_eq!(vertex, Vertex::new(NodeIndex(1), 0, NodeMap::with_size(NodeCount(3))));
}

#[test]
fn units_are_registered_once() {
    let mut terminal: Terminal<u64> = Terminal::new();
    assert!(terminal.register_new_chunit(&chunit(1)));
    assert!(!terminal.register_new_chunit(&chunit(1)));
    // All units have the default hash, so that the first one counts.
    assert!(!terminal.register_new_chunit(&chunit(2)));
    assert_eq!(terminal.pending_list, vec![Unit::blank_from_chunit(&chunit(1))]);
    terminal.process_incoming(vec![chunit(2), chunit(1)]);
    assert_eq!(terminal.pending_list.len(), 1);
    assert!(terminal.ready_list.is_empty());
}

#[test]
fn ready_units_are_added_last_first() {
    let conf = ConsensusConfig { ix: NodeIndex(1), n_members: NodeCount(3), epoch_id: 2 };
    let mut terminal: Terminal<u64> = consensus_terminal(&conf);
    let own = Unit::blank_from_chunit(&chunit(1));
    let other = Unit::blank_from_chunit(&chunit(2));
    terminal.ready_list.push(own.clone());
    terminal.ready_list.push(other.clone());
    let actions = terminal.poll(vec![chunit(0)]);
    assert!(terminal.ready_list.is_empty());
    assert_eq!(terminal.pending_list.len(), 1);
    let vertices: Vec<Vertex<u64>> = vec![other.clone().into(), own.clone().into()];
    assert_eq!(terminal.dag.vertices, vertices);
    assert_eq!(actions.len(), 5);
    assert!(matches!(&actions[0], TerminalAction::ParentCandidate(u) if *u == chunit(2)));
    assert!(matches!(&actions[1], TerminalAction::Elector(v) if *v == vertices[0]));
    assert!(matches!(
        &actions[2],
        TerminalAction::Request(Message::Multicast(u)) if *u == chunit(1)
    ));
    assert!(matches!(&actions[3], TerminalAction::ParentCandidate(u) if *u == chunit(1)));
    assert!(matches!(&actions[4], TerminalAction::Elector(v) if *v == vertices[1]));
    assert!(terminal.poll(Vec::new()).is_empty());
}

#[test]
fn hooks_run_in_their_order() {
    let mut terminal: Terminal<u64> = Terminal::new();
    terminal.register_post_insert_hook(PostInsertHook::Elector);
    terminal.register_post_insert_hook(PostInsertHook::Multicast(NodeIndex(0)));
    terminal.register_post_insert_hook(PostInsertHook::ParentCandidate);
    let actions = terminal.update_post_insert(Unit::blank_from_chunit(&chunit(1)));
    assert_eq!(actions.len(), 2);
    assert!(matches!(&actions[0], TerminalAction::Elector(_)));
    assert!(matches!(&actions[1], TerminalAction::ParentCandidate(_)));
}

#[test]
fn messages_bring_units() {
    assert_eq!(Message::Multicast(chunit(1)).into_units(), vec![chunit(1)]);
    let response = Message::FetchResponse(vec![chunit(1), chunit(2)], NodeIndex(0));
    assert_eq!(response.clone(), response);
    assert_eq!(response.into_units(), vec![chunit(1), chunit(2)]);
    let request: Message<u64> = Message::FetchRequest(vec![NodeIndex(1)], NodeIndex(0));
    assert_eq!(request.clone(), request);
    assert!(request.into_units().is_empty());
    assert!(Message::<u64>::SyncMessage.into_units().is_empty());
    assert!(Message::<u64>::SyncResponse.into_units().is_empty());
    assert!(Message::<u64>::Alert.into_units().is_empty());
}

#[test]
fn no_vertex_is_a_head() {
    let mut extender = Extender::new();
    let vertex: Vertex<u64> = Unit::blank_from_chunit(&chunit(1)).into();
    assert!(!extender.new_head(vertex.clone()));
    extender.on_elector(vertex);
    assert_eq!(extender, Extender::new());
}
