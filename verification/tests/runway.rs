use aleph_bft::faults::{NewestFault, ParentsFault, UnitFault};
use aleph_bft::messages::{
    Action, Delivery, Event, ForkingNotification, NotificationIn, NotificationOut, Recipient,
    Request, Response, RunwayNotificationIn, RunwayNotificationOut, UnitMessage,
};
use aleph_bft::nodes::{NodeCount, NodeIndex, NodeMap};
use aleph_bft::run::{Next, Outcome, Run};
use aleph_bft::runway::{Runway, RunwayConfig};
use aleph_bft::store::UnitStore;
use aleph_bft::traits::{Data, Hasher, MultiKeychain, Signature};
use aleph_bft::units::{
    ControlHash, FullUnit, NewestUnitResponse, PreUnit, Round, SessionId, Signable, Signed,
    SignedUnit, UnitCoord,
};

const SESSION: SessionId = 43;
const SALT: u64 = 7;
const N: usize = 4;
const MAX_ROUND: Round = 10;

fn mix(acc: u64, x: u64) -> u64 {
    (acc ^ x).wrapping_mul(0x100_0000_01b3).wrapping_add(1)
}

struct Fnv;

impl Hasher for Fnv {
    type Hash = u64;

    fn hash_unit(
        coord: UnitCoord,
        parents_mask: &NodeMap<bool>,
        combined_hash: u64,
        data: &Vec<u8>,
        session_id: SessionId,
    ) -> u64 {
        let mut acc = mix(0xcbf2_9ce4, coord.round() as u64);
        acc = mix(acc, coord.creator().0 as u64);
        acc = mix(acc, parents_mask.size().0 as u64);
        for ix in parents_mask.elements() {
            acc = mix(acc, ix.0 as u64);
        }
        acc = mix(acc, combined_hash);
        for byte in data {
            acc = mix(acc, *byte as u64);
        }
        mix(acc, session_id)
    }

    fn hash_newest_response(
        requester: NodeIndex,
        responder: NodeIndex,
        unit: &Option<(u64, Vec<u8>)>,
        salt: u64,
    ) -> u64 {
        let mut acc = mix(0x1234_5678, requester.0 as u64);
        acc = mix(acc, responder.0 as u64);
        if let Some((hash, signature)) = unit {
            acc = mix(acc, *hash);
            for byte in signature {
                acc = mix(acc, *byte as u64);
            }
        }
        mix(acc, salt)
    }

    fn combine_hashes(parents: &NodeMap<Option<u64>>) -> u64 {
        let mut acc = mix(0x9876_5432, parents.size().0 as u64);
        for i in 0..parents.size().0 {
            if let Some(hash) = parents.get(NodeIndex(i)) {
                acc = mix(mix(acc, i as u64), *hash);
            }
        }
        acc
    }
}

#[derive(Clone, Debug, PartialEq)]
struct Text(u8);

impl Data for Text {
    fn encode(&self) -> Vec<u8> {
        vec![self.0]
    }
}

#[derive(Clone, Debug, PartialEq)]
struct Sig {
    index: usize,
    message: u64,
}

impl Signature for Sig {
    fn encode(&self) -> Vec<u8> {
        vec![self.index as u8]
    }
}

struct Keys;

impl MultiKeychain<Fnv> for Keys {
    type Signature = Sig;

    fn verify(&self, message: &u64, signature: &Sig, index: NodeIndex) -> bool {
        signature.index == index.0 && signature.message == *message
    }
}

type TestUnit = SignedUnit<Fnv, Text, Sig>;
type TestAction = Action<Fnv, Text, Sig>;
type TestRunway<'a> = Runway<'a, Fnv, Text, Keys>;
type TestMessage = RunwayNotificationIn<Fnv, Text, Sig>;

fn runway_of(node: usize, keys: &Keys) -> TestRunway<'_> {
    Runway::new(RunwayConfig {
        node_ix: NodeIndex(node),
        session_id: SESSION,
        n_members: NodeCount(N),
        max_round: MAX_ROUND,
        keychain: keys,
        salt: SALT,
    })
}

fn sign(unit: FullUnit<Fnv, Text>) -> TestUnit {
    let signature = Sig { index: unit.creator().0, message: unit.hash() };
    Signed::new(unit, signature)
}

fn full_unit(
    creator: usize,
    round: Round,
    parents: Vec<Option<u64>>,
    data: u8,
    session: SessionId,
) -> FullUnit<Fnv, Text> {
    let mask = NodeMap::from_vec(parents.iter().map(|p| p.is_some()).collect());
    let combined_hash = ControlHash::<Fnv>::combine_hashes(&NodeMap::from_vec(parents));
    let control_hash = ControlHash { parents_mask: mask, combined_hash };
    FullUnit::new(PreUnit::new(NodeIndex(creator), round, control_hash), Text(data), session)
}

fn unit(creator: usize, round: Round, parents: Vec<Option<u64>>, data: u8) -> TestUnit {
    sign(full_unit(creator, round, parents, data, SESSION))
}

fn initial(creator: usize) -> TestUnit {
    unit(creator, 0, vec![None; N], creator as u8)
}

fn hash(unit: &TestUnit) -> u64 {
    unit.as_signable().hash()
}

/// The round 1 unit of `creator` over the first units of nodes 0, 1 and 2.
fn second(creator: usize) -> TestUnit {
    let parents = vec![
        Some(hash(&initial(0))),
        Some(hash(&initial(1))),
        Some(hash(&initial(2))),
        None,
    ];
    unit(creator, 1, parents, 100 + creator as u8)
}

fn newest(
    requester: usize,
    responder: usize,
    unit: Option<TestUnit>,
    salt: u64,
) -> Signed<NewestUnitResponse<Fnv, Text, Sig>, Sig> {
    let response = NewestUnitResponse {
        requester: NodeIndex(requester),
        responder: NodeIndex(responder),
        unit,
        salt,
    };
    let signature = Sig { index: responder, message: response.digest() };
    Signed::new(response, signature)
}

fn moved(runway: &mut TestRunway<'_>) -> Vec<u64> {
    let actions = runway.move_units_to_consensus();
    assert_eq!(actions.len(), 1);
    match &actions[0] {
        Action::Consensus(NotificationIn::NewUnits(units)) => {
            units.iter().map(|unit| unit.hash).collect()
        }
        _ => panic!("new units expected"),
    }
}

fn asked_for(runway: &TestRunway<'_>, coord: UnitCoord) -> Option<u64> {
    let actions = runway.on_request_coord(NodeIndex(3), coord);
    if actions.is_empty() {
        return None;
    }
    match &actions[0] {
        Action::Network(RunwayNotificationOut::Response(Response::Coord(unit), NodeIndex(3))) => {
            Some(hash(unit))
        }
        _ => panic!("a unit expected"),
    }
}

fn resolved_coords(actions: &Vec<TestAction>) -> Vec<UnitCoord> {
    let mut coords = Vec::new();
    for action in actions {
        if let Action::Resolved(Request::Coord(coord)) = action {
            coords.push(*coord);
        }
    }
    coords
}

fn coord(round: Round, creator: usize) -> UnitCoord {
    UnitCoord::new(round, NodeIndex(creator))
}

#[test]
fn threshold_is_more_than_two_thirds() {
    for (n_members, expected) in [(1, 1), (2, 2), (3, 3), (4, 3), (5, 4), (7, 5), (10, 7)] {
        let keys = Keys;
        let runway: TestRunway<'_> = Runway::new(RunwayConfig {
            node_ix: NodeIndex(0),
            session_id: SESSION,
            n_members: NodeCount(n_members),
            max_round: MAX_ROUND,
            keychain: &keys,
            salt: SALT,
        });
        assert_eq!(runway.threshold(), NodeCount(expected));
    }
}

#[test]
fn index_is_the_configured_one() {
    let keys = Keys;
    assert_eq!(runway_of(2, &keys).index(), NodeIndex(2));
}

#[test]
fn valid_units_pass_validation() {
    let keys = Keys;
    let runway = runway_of(0, &keys);
    for creator in 0..N {
        assert!(runway.validate_unit(initial(creator)).is_some());
    }
    assert!(runway.validate_unit(second(1)).is_some());
    let last = unit(1, MAX_ROUND, vec![Some(1), Some(2), Some(3), None], 0);
    assert!(runway.validate_unit(last).is_some());
}

#[test]
fn wrong_signature_is_rejected() {
    let keys = Keys;
    let runway = runway_of(0, &keys);
    let full = full_unit(1, 0, vec![None; N], 1, SESSION);
    let message = full.hash();
    assert!(runway.validate_unit(Signed::new(full, Sig { index: 2, message })).is_none());
    let full = full_unit(1, 0, vec![None; N], 1, SESSION);
    let signature = Sig { index: 1, message: message.wrapping_add(1) };
    assert!(runway.validate_unit(Signed::new(full, signature)).is_none());
}

#[test]
fn wrong_session_is_rejected() {
    let keys = Keys;
    let runway = runway_of(0, &keys);
    let other = sign(full_unit(1, 0, vec![None; N], 1, SESSION + 1));
    assert!(runway.validate_unit(other).is_none());
}

#[test]
fn too_high_round_is_rejected() {
    let keys = Keys;
    let runway = runway_of(0, &keys);
    let late = unit(1, MAX_ROUND + 1, vec![Some(1), Some(2), Some(3), None], 0);
    assert!(runway.validate_unit(late).is_none());
}

#[test]
fn too_high_creator_is_rejected() {
    let keys = Keys;
    let runway = runway_of(0, &keys);
    assert!(runway.validate_unit(unit(N, 0, vec![None; N], 0)).is_none());
    assert!(runway.validate_unit(unit(N, 1, vec![Some(1); N], 0)).is_none());
}

#[test]
fn bad_parents_are_rejected() {
    let keys = Keys;
    let runway = runway_of(0, &keys);
    // The map of parents is too short or too long.
    assert!(runway.validate_unit(unit(1, 0, vec![None; N - 1], 0)).is_none());
    assert!(runway.validate_unit(unit(1, 1, vec![Some(1); N + 1], 0)).is_none());
    // A unit of round 0 with a parent.
    assert!(runway.validate_unit(unit(1, 0, vec![None, Some(1), None, None], 0)).is_none());
    // Fewer parents than the threshold.
    assert!(runway.validate_unit(unit(1, 1, vec![None, Some(1), Some(2), None], 0)).is_none());
    // Not a parent of its creator.
    let orphan = unit(3, 1, vec![Some(1), Some(2), Some(3), None], 0);
    assert!(!runway.validate_unit_parents(&orphan));
    assert!(runway.validate_unit(orphan).is_none());
}

#[test]
fn received_unit_is_kept_and_moved_once() {
    let keys = Keys;
    let mut runway = runway_of(0, &keys);
    assert_eq!(asked_for(&runway, coord(0, 1)), None);
    assert!(runway.on_unit_received(initial(1), false).is_empty());
    assert!(runway.on_unit_received(initial(1), false).is_empty());
    assert_eq!(asked_for(&runway, coord(0, 1)), Some(hash(&initial(1))));
    assert_eq!(moved(&mut runway), vec![hash(&initial(1))]);
    assert_eq!(moved(&mut runway), Vec::<u64>::new());
    assert!(runway.on_unit_received(initial(1), false).is_empty());
    assert_eq!(moved(&mut runway), Vec::<u64>::new());
}

#[test]
fn moved_units_say_what_the_units_are() {
    let keys = Keys;
    let mut runway = runway_of(0, &keys);
    runway.on_unit_received(second(1), false);
    let actions = runway.move_units_to_consensus();
    match &actions[0] {
        Action::Consensus(NotificationIn::NewUnits(units)) => {
            assert_eq!(units.len(), 1);
            assert_eq!(units[0].coord, coord(1, 1));
            assert_eq!(units[0].hash, hash(&second(1)));
            let parents = vec![NodeIndex(0), NodeIndex(1), NodeIndex(2)];
            assert_eq!(units[0].control_hash.parents(), parents);
            assert_eq!(
                units[0].control_hash.combined_hash,
                second(1).as_signable().control_hash().combined_hash
            );
        }
        _ => panic!("new units expected"),
    }
}

#[test]
fn invalid_unit_changes_nothing() {
    let keys = Keys;
    let mut runway = runway_of(0, &keys);
    runway.on_missing_coords(vec![coord(0, 1)]);
    let other = sign(full_unit(1, 0, vec![None; N], 1, SESSION + 1));
    assert!(runway.on_unit_received(other.clone(), false).is_empty());
    assert!(runway.on_unit_received(other, true).is_empty());
    assert_eq!(asked_for(&runway, coord(0, 1)), None);
    assert_eq!(moved(&mut runway), Vec::<u64>::new());
    // The request is still outstanding.
    assert!(runway.on_missing_coords(vec![coord(0, 1)]).is_empty());
}

#[test]
fn fork_is_alerted_once() {
    let keys = Keys;
    let mut runway = runway_of(0, &keys);
    let first = initial(1);
    let later = second(1);
    let fork = unit(1, 0, vec![None; N], 99);
    runway.on_unit_received(later.clone(), false);
    runway.on_unit_received(first.clone(), false);
    let actions = runway.on_unit_received(fork.clone(), false);
    assert_eq!(actions.len(), 1);
    match &actions[0] {
        Action::Alert(alert) => {
            assert_eq!(alert.sender, NodeIndex(0));
            assert_eq!(hash(&alert.proof_of_fork.0), hash(&fork));
            assert_eq!(hash(&alert.proof_of_fork.1), hash(&first));
            let units: Vec<u64> = alert.legit_units.iter().map(|unit| hash(unit)).collect();
            assert_eq!(units, vec![hash(&first), hash(&later)]);
        }
        _ => panic!("an alert expected"),
    }
    // The fork is not kept, and a further unit of the forker is ignored.
    assert_eq!(asked_for(&runway, coord(0, 1)), Some(hash(&first)));
    assert!(runway.on_unit_received(unit(1, 0, vec![None; N], 98), false).is_empty());
    let third = unit(1, 2, vec![Some(1), Some(2), Some(3), None], 5);
    assert!(runway.on_unit_received(third, false).is_empty());
    assert_eq!(asked_for(&runway, coord(2, 1)), None);
    assert_eq!(moved(&mut runway), vec![hash(&later), hash(&first)]);
}

#[test]
fn alerted_units_are_kept() {
    let keys = Keys;
    let mut runway = runway_of(0, &keys);
    let fork = unit(1, 0, vec![None; N], 99);
    runway.on_unit_received(initial(1), false);
    let proof = (fork.clone(), initial(1));
    let actions = runway.on_alert_notification(ForkingNotification::Forker(proof.clone()));
    assert_eq!(actions.len(), 1);
    assert!(matches!(&actions[0], Action::Alert(_)));
    // A known forker is not alerted of again.
    assert!(runway.on_alert_notification(ForkingNotification::Forker(proof)).is_empty());
    runway.on_missing_coords(vec![coord(1, 1)]);
    let units = vec![fork.clone(), second(1)];
    let actions = runway.on_alert_notification(ForkingNotification::Units(units));
    assert_eq!(resolved_coords(&actions), vec![coord(1, 1)]);
    assert_eq!(asked_for(&runway, coord(0, 1)), Some(hash(&fork)));
    assert_eq!(
        moved(&mut runway),
        vec![hash(&initial(1)), hash(&fork), hash(&second(1))]
    );
}

#[test]
fn missing_coords_are_requested_once() {
    let keys = Keys;
    let mut runway = runway_of(0, &keys);
    runway.on_unit_received(initial(2), false);
    let coords = vec![coord(0, 1), coord(0, 2), coord(1, 3), coord(0, 1)];
    let actions = runway.on_missing_coords(coords.clone());
    assert_eq!(actions.len(), 2);
    assert!(matches!(
        &actions[0],
        Action::Network(RunwayNotificationOut::Request(
            Request::Coord(c),
            Recipient::Node(NodeIndex(1))
        )) if *c == coord(0, 1)
    ));
    assert!(matches!(
        &actions[1],
        Action::Network(RunwayNotificationOut::Request(
            Request::Coord(c),
            Recipient::Node(NodeIndex(3))
        )) if *c == coord(1, 3)
    ));
    assert!(runway.on_missing_coords(coords).is_empty());
    let actions = runway.on_unit_received(initial(1), false);
    assert_eq!(resolved_coords(&actions), vec![coord(0, 1)]);
    assert!(runway.on_unit_received(initial(1), false).is_empty());
    assert!(runway.on_missing_coords(vec![coord(0, 1)]).is_empty());
}

#[test]
fn unknown_parents_are_requested_once() {
    let keys = Keys;
    let mut runway = runway_of(0, &keys);
    let u = second(1);
    let actions = runway.on_wrong_control_hash(hash(&u));
    assert!(matches!(
        &actions[0],
        Action::Network(RunwayNotificationOut::Request(
            Request::Parents(h),
            Recipient::Everyone
        )) if *h == hash(&u)
    ));
    assert!(runway.on_wrong_control_hash(hash(&u)).is_empty());
    let other = second(2);
    runway.on_unit_received(other.clone(), false);
    let actions = runway.on_wrong_control_hash(hash(&other));
    assert!(matches!(
        &actions[0],
        Action::Network(RunwayNotificationOut::Request(
            Request::Parents(_),
            Recipient::Node(NodeIndex(2))
        ))
    ));
}

#[test]
fn parents_response_is_taken_over() {
    let keys = Keys;
    let mut runway = runway_of(0, &keys);
    let u = second(1);
    let hashes = vec![hash(&initial(0)), hash(&initial(1)), hash(&initial(2))];
    runway.on_unit_received(u.clone(), false);
    runway.on_missing_coords(vec![coord(0, 2)]);
    let parents = vec![initial(0), initial(1), initial(2)];
    let actions = runway.on_parents_response(hash(&u), parents.clone());
    assert_eq!(resolved_coords(&actions), vec![coord(0, 2)]);
    match &actions[actions.len() - 1] {
        Action::Consensus(NotificationIn::UnitParents(h, told)) => {
            assert_eq!(*h, hash(&u));
            assert_eq!(*told, hashes);
        }
        _ => panic!("parents expected"),
    }
    // They are known from now on.
    assert!(runway.on_parents_response(hash(&u), parents).is_empty());
    match &runway.on_wrong_control_hash(hash(&u))[0] {
        Action::Consensus(NotificationIn::UnitParents(_, told)) => assert_eq!(*told, hashes),
        _ => panic!("parents expected"),
    }
    match &runway.on_request_parents(NodeIndex(2), hash(&u))[0] {
        Action::Network(RunwayNotificationOut::Response(
            Response::Parents(h, units),
            NodeIndex(2),
        )) => {
            assert_eq!(*h, hash(&u));
            let answered: Vec<u64> = units.iter().map(|unit| hash(unit)).collect();
            assert_eq!(answered, hashes);
        }
        _ => panic!("parents expected"),
    }
}

#[test]
fn bad_parents_responses_are_not_taken_over() {
    let keys = Keys;
    let mut runway = runway_of(0, &keys);
    let u = second(1);
    let good = vec![initial(0), initial(1), initial(2)];
    // The unit is not known.
    assert!(runway.on_parents_response(hash(&u), good.clone()).is_empty());
    assert_eq!(asked_for(&runway, coord(0, 0)), None);
    runway.on_unit_received(u.clone(), false);
    // The number is wrong.
    assert!(runway.on_parents_response(hash(&u), vec![initial(0), initial(1)]).is_empty());
    assert_eq!(asked_for(&runway, coord(0, 0)), None);
    // The second parent has the wrong creator: the first is kept, the third is not looked at.
    let swapped = vec![initial(0), initial(2), initial(1)];
    assert!(runway.on_parents_response(hash(&u), swapped).is_empty());
    assert_eq!(asked_for(&runway, coord(0, 0)), Some(hash(&initial(0))));
    assert_eq!(asked_for(&runway, coord(0, 1)), None);
    // The round of a parent is wrong.
    assert!(runway.on_parents_response(hash(&u), vec![initial(0), second(1), initial(2)]).is_empty());
    // A parent is not valid.
    let foreign = sign(full_unit(1, 0, vec![None; N], 1, SESSION + 1));
    assert!(runway.on_parents_response(hash(&u), vec![initial(0), foreign, initial(2)]).is_empty());
    // The hashes do not give the control hash.
    let other = unit(2, 0, vec![None; N], 77);
    assert!(runway.on_parents_response(hash(&u), vec![initial(0), initial(1), other]).is_empty());
    assert!(runway.on_request_parents(NodeIndex(2), hash(&u)).is_empty());
}

#[test]
fn parents_request_needs_all_parents() {
    let keys = Keys;
    let mut runway = runway_of(0, &keys);
    let u = second(1);
    let hashes = vec![hash(&initial(0)), hash(&initial(1)), hash(&initial(2))];
    assert!(runway.on_request_parents(NodeIndex(2), hash(&u)).is_empty());
    runway.on_added_to_dag(hash(&u), hashes);
    runway.on_unit_received(initial(0), false);
    runway.on_unit_received(initial(1), false);
    assert!(runway.on_request_parents(NodeIndex(2), hash(&u)).is_empty());
    runway.on_unit_received(initial(2), false);
    assert_eq!(runway.on_request_parents(NodeIndex(2), hash(&u)).len(), 1);
}

#[test]
fn own_unit_is_sent_once_in_the_dag() {
    let keys = Keys;
    let mut runway = runway_of(1, &keys);
    let pre_unit = PreUnit::new(
        NodeIndex(1),
        0,
        ControlHash {
            parents_mask: NodeMap::from_vec(vec![false; N]),
            combined_hash: ControlHash::<Fnv>::combine_hashes(&NodeMap::with_size(NodeCount(N))),
        },
    );
    let notification = NotificationOut::CreatedPreUnit(pre_unit, Vec::new());
    let actions = runway.on_consensus_notification(notification);
    let pre_unit = match actions.into_iter().next() {
        Some(Action::CreateUnit(pre_unit)) => pre_unit,
        _ => panic!("a unit to create expected"),
    };
    let created = sign(runway.create_unit(pre_unit, Text(1)));
    assert_eq!(created.as_signable().session_id(), SESSION);
    assert_eq!(hash(&created), hash(&initial(1)));
    runway.on_unit_created(created.clone());
    assert_eq!(moved(&mut runway), vec![hash(&created)]);
    runway.on_wrong_control_hash(hash(&created));
    let actions = runway.on_added_to_dag(hash(&created), Vec::new());
    assert_eq!(actions.len(), 2);
    assert!(matches!(&actions[0], Action::Resolved(Request::Parents(h)) if *h == hash(&created)));
    assert!(matches!(
        &actions[1],
        Action::Network(RunwayNotificationOut::NewUnit(unit)) if hash(unit) == hash(&created)
    ));
    // A unit of another node is not sent.
    runway.on_unit_received(initial(2), false);
    assert!(runway.on_added_to_dag(hash(&initial(2)), Vec::new()).is_empty());
}

#[test]
fn newest_unit_is_the_one_of_the_greatest_round() {
    let keys = Keys;
    let mut runway = runway_of(0, &keys);
    assert!(runway.on_request_newest(NodeIndex(1), 5).unit.is_none());
    runway.on_unit_received(second(1), false);
    runway.on_unit_received(initial(1), false);
    runway.on_unit_received(initial(2), false);
    let response = runway.on_request_newest(NodeIndex(1), 5);
    assert_eq!(response.requester, NodeIndex(1));
    assert_eq!(response.responder, NodeIndex(0));
    assert_eq!(response.salt, 5);
    assert_eq!(response.unit.as_ref().map(|unit| hash(unit)), Some(hash(&second(1))));
    let signature = Sig { index: 0, message: response.digest() };
    let actions = runway.on_newest_signed(Signed::new(response, signature));
    assert!(matches!(
        &actions[0],
        Action::Network(RunwayNotificationOut::Response(Response::NewestUnit(_), NodeIndex(1)))
    ));
    assert_eq!(actions[0].delivery(), Delivery::BestEffort);
}

#[test]
fn starting_round_waits_for_delay_and_quorum() {
    let keys = Keys;
    let mut runway = runway_of(0, &keys);
    assert!(runway.on_newest_response(newest(0, 1, None, SALT)).is_empty());
    assert!(runway.on_catch_up_delay().is_empty());
    // The same responder does not count twice.
    assert!(runway.on_newest_response(newest(0, 1, None, SALT)).is_empty());
    let actions = runway.on_newest_response(newest(0, 2, None, SALT));
    assert_eq!(actions.len(), 1);
    assert!(matches!(&actions[0], Action::StartingRound(0)));
    // It is told once.
    assert!(runway.on_newest_response(newest(0, 3, None, SALT)).is_empty());
    assert!(runway.on_catch_up_delay().is_empty());
    assert!(runway.resolve_starting_round().is_empty());
}

#[test]
fn starting_round_follows_the_newest_unit() {
    let keys = Keys;
    let mut runway = runway_of(0, &keys);
    assert!(runway.on_newest_response(newest(0, 1, Some(second(0)), SALT)).is_empty());
    assert!(runway.on_newest_response(newest(0, 2, Some(initial(0)), SALT)).is_empty());
    assert!(!runway.is_starting_round_ready());
    let actions = runway.on_catch_up_delay();
    assert!(matches!(&actions[0], Action::StartingRound(2)));
    assert_eq!(moved(&mut runway), vec![hash(&second(0)), hash(&initial(0))]);
}

#[test]
fn bad_newest_responses_do_not_count() {
    let keys = Keys;
    let mut runway = runway_of(0, &keys);
    runway.on_catch_up_delay();
    assert!(runway.on_newest_response(newest(0, 1, None, SALT)).is_empty());
    // The salt is wrong.
    assert!(runway.on_newest_response(newest(0, 2, None, SALT + 1)).is_empty());
    // The signature is wrong.
    let response = NewestUnitResponse {
        requester: NodeIndex(0),
        responder: NodeIndex(2),
        unit: None,
        salt: SALT,
    };
    let signature = Sig { index: 1, message: response.digest() };
    assert!(runway.on_newest_response(Signed::new(response, signature)).is_empty());
    // The unit is another node's.
    assert!(runway.on_newest_response(newest(0, 2, Some(initial(1)), SALT)).is_empty());
    // The unit is not valid.
    let foreign = sign(full_unit(0, 0, vec![None; N], 1, SESSION + 1));
    assert!(runway.on_newest_response(newest(0, 2, Some(foreign), SALT)).is_empty());
    assert_eq!(moved(&mut runway), Vec::<u64>::new());
    // A good one does.
    assert_eq!(runway.on_newest_response(newest(0, 2, None, SALT)).len(), 1);
}

#[test]
fn undelivered_actions_stop_the_node() {
    let keys = Keys;
    let mut runway = runway_of(0, &keys);
    let start = runway.on_start();
    assert!(matches!(
        &start[0],
        Action::Network(RunwayNotificationOut::Request(
            Request::NewestUnit(SALT),
            Recipient::Everyone
        ))
    ));
    assert_eq!(start[0].delivery(), Delivery::Vital);
    assert!(runway.on_delivery(Delivery::Vital, true).is_empty());
    assert!(runway.on_delivery(Delivery::BestEffort, false).is_empty());
    assert!(!runway.exiting());
    let actions = runway.on_delivery(Delivery::StartingRound, true);
    assert!(matches!(&actions[0], Action::Resolved(Request::NewestUnit(SALT))));
    assert_eq!(actions[0].delivery(), Delivery::BestEffort);
    assert!(!runway.exiting());
    assert!(runway.on_delivery(Delivery::Vital, false).is_empty());
    assert!(runway.exiting());
}

#[test]
fn undelivered_starting_round_stops_the_node() {
    let keys = Keys;
    let mut runway = runway_of(0, &keys);
    assert!(runway.on_delivery(Delivery::StartingRound, false).is_empty());
    assert!(runway.exiting());
}

#[test]
fn deliveries_of_actions() {
    let resolved: TestAction = Action::Resolved(Request::Coord(coord(0, 1)));
    assert_eq!(resolved.delivery(), Delivery::Vital);
    let starting: TestAction = Action::StartingRound(3);
    assert_eq!(starting.delivery(), Delivery::StartingRound);
    let batch: TestAction = Action::OrderedBatch(Vec::new());
    assert_eq!(batch.delivery(), Delivery::BestEffort);
    let units: TestAction = Action::Consensus(NotificationIn::NewUnits(Vec::new()));
    assert_eq!(units.delivery(), Delivery::Vital);
}

#[test]
fn ordered_batch_is_the_data_of_the_units() {
    let keys = Keys;
    let mut runway = runway_of(0, &keys);
    runway.on_unit_received(initial(1), false);
    runway.on_unit_received(second(1), false);
    let hashes = vec![hash(&second(1)), hash(&initial(1))];
    let unknown = Event::OrderedBatch(Some(vec![hash(&initial(1)), hash(&initial(2))]));
    assert!(!runway.can_handle(&unknown));
    let event = Event::OrderedBatch(Some(hashes));
    assert!(runway.can_handle(&event));
    let actions = runway.on_event(event).unwrap_or_default();
    match &actions[0] {
        Action::OrderedBatch(batch) => assert_eq!(*batch, vec![Text(101), Text(1)]),
        _ => panic!("a batch expected"),
    }
}

#[test]
fn last_round_has_no_round_after_it() {
    let keys = Keys;
    let runway: TestRunway<'_> = Runway::new(RunwayConfig {
        node_ix: NodeIndex(0),
        session_id: SESSION,
        n_members: NodeCount(N),
        max_round: Round::MAX,
        keychain: &keys,
        salt: SALT,
    });
    let last = unit(0, Round::MAX, vec![Some(1), Some(2), Some(3), None], 0);
    let response = newest(0, 1, Some(last), SALT);
    let message = RunwayNotificationIn::Response(Response::NewestUnit(response));
    assert!(!runway.can_handle(&Event::Network(Some(message))));
    let before = unit(0, Round::MAX - 1, vec![Some(1), Some(2), Some(3), None], 0);
    let response = newest(0, 1, Some(before), SALT);
    let message = RunwayNotificationIn::Response(Response::NewestUnit(response));
    assert!(runway.can_handle(&Event::Network(Some(message))));
}

#[test]
fn closed_streams_end_the_run() {
    let keys = Keys;
    let mut runway = runway_of(0, &keys);
    assert!(runway.on_event(Event::Consensus(None)).is_none());
    assert!(runway.on_event(Event::Alerter(None)).is_none());
    assert!(runway.on_event(Event::Network(None)).is_none());
    assert!(runway.on_event(Event::OrderedBatch(None)).is_none());
    assert!(!runway.exiting());
    assert_eq!(runway.on_event(Event::Exit).map(|actions| actions.len()), Some(0));
    assert!(runway.exiting());
}

#[test]
fn events_reach_their_handlers() {
    let keys = Keys;
    let mut runway = runway_of(0, &keys);
    let new_unit: TestMessage = RunwayNotificationIn::NewUnit(initial(1));
    assert!(runway.on_event(Event::Network(Some(new_unit))).is_some());
    let fetched = RunwayNotificationIn::Response(Response::Coord(initial(2)));
    assert!(runway.on_event(Event::Network(Some(fetched))).is_some());
    let request = RunwayNotificationIn::Request(Request::Coord(coord(0, 2)), NodeIndex(3));
    let actions = runway.on_event(Event::Network(Some(request))).unwrap_or_default();
    assert_eq!(actions.len(), 1);
    let request = RunwayNotificationIn::Request(Request::NewestUnit(9), NodeIndex(1));
    let actions = runway.on_event(Event::Network(Some(request))).unwrap_or_default();
    match &actions[0] {
        Action::SignNewest(response) => {
            assert_eq!(response.salt, 9);
            assert_eq!(response.unit.as_ref().map(|u| hash(u)), Some(hash(&initial(1))));
        }
        _ => panic!("an answer to sign expected"),
    }
    let missing = NotificationOut::MissingUnits(vec![coord(4, 2)]);
    let actions = runway.on_event(Event::Consensus(Some(missing))).unwrap_or_default();
    assert_eq!(actions.len(), 1);
    let wrong = NotificationOut::WrongControlHash(77);
    let actions = runway.on_event(Event::Consensus(Some(wrong))).unwrap_or_default();
    assert_eq!(actions.len(), 1);
    assert_eq!(runway.on_event(Event::CatchUpDelay).map(|actions| actions.len()), Some(0));
}

#[test]
fn messages_are_told_apart() {
    let unit_hash = hash(&initial(1));
    let taken = TestMessage::try_from(UnitMessage::NewUnit(initial(1)));
    assert!(matches!(&taken, Ok(RunwayNotificationIn::NewUnit(u)) if hash(u) == unit_hash));
    let taken = TestMessage::try_from(UnitMessage::RequestCoord(NodeIndex(2), coord(1, 3)));
    assert!(matches!(
        &taken,
        Ok(RunwayNotificationIn::Request(Request::Coord(c), NodeIndex(2))) if *c == coord(1, 3)
    ));
    let taken = TestMessage::try_from(UnitMessage::RequestParents(NodeIndex(2), 8));
    assert!(matches!(
        &taken,
        Ok(RunwayNotificationIn::Request(Request::Parents(8), NodeIndex(2)))
    ));
    let taken = TestMessage::try_from(UnitMessage::ResponseCoord(initial(1)));
    assert!(matches!(
        &taken,
        Ok(RunwayNotificationIn::Response(Response::Coord(u))) if hash(u) == unit_hash
    ));
    let taken = TestMessage::try_from(UnitMessage::ResponseParents(8, vec![initial(1)]));
    assert!(matches!(
        &taken,
        Ok(RunwayNotificationIn::Response(Response::Parents(8, units))) if units.len() == 1
    ));
    let taken = TestMessage::try_from(UnitMessage::RequestNewest(NodeIndex(2), 9));
    assert!(matches!(
        &taken,
        Ok(RunwayNotificationIn::Request(Request::NewestUnit(9), NodeIndex(2)))
    ));
    let taken = TestMessage::try_from(UnitMessage::ResponseNewest(newest(0, 1, None, SALT)));
    assert!(matches!(
        &taken,
        Ok(RunwayNotificationIn::Response(Response::NewestUnit(_)))
    ));
}

#[test]
fn store_buffers_forkers_units_only_with_an_alert() {
    let mut store: UnitStore<Fnv, Text, Sig> = UnitStore::new(MAX_ROUND);
    assert_eq!(store.limit_per_node(), MAX_ROUND);
    store.add_unit(initial(1), false);
    let units: Vec<u64> = store.mark_forker(NodeIndex(1)).iter().map(|u| hash(u)).collect();
    assert_eq!(units, vec![hash(&initial(1))]);
    assert!(store.is_forker(NodeIndex(1)));
    assert!(!store.is_forker(NodeIndex(2)));
    store.add_unit(second(1), false);
    let fork = unit(1, 0, vec![None; N], 9);
    let other = store.is_new_fork(fork.as_signable());
    assert_eq!(other.map(|u| hash(&u)), Some(hash(&initial(1))));
    store.add_unit(fork.clone(), true);
    assert!(store.is_new_fork(fork.as_signable()).is_none());
    let buffered: Vec<u64> = store.yield_buffer_units().iter().map(|u| hash(u)).collect();
    assert_eq!(buffered, vec![hash(&initial(1)), hash(&fork)]);
    assert!(store.yield_buffer_units().is_empty());
    assert!(store.contains_hash(&hash(&second(1))));
    assert!(store.contains_coord(&coord(1, 1)));
    assert!(!store.contains_coord(&coord(2, 1)));
    assert_eq!(store.unit_by_coord(coord(0, 1)).map(|u| hash(u)), Some(hash(&fork)));
    assert_eq!(store.newest_unit(NodeIndex(1)).map(|u| hash(&u)), Some(hash(&second(1))));
    assert!(store.newest_unit(NodeIndex(2)).is_none());
    store.add_parents(3, vec![4, 5]);
    assert_eq!(store.get_parents(3), Some(&vec![4, 5]));
    assert_eq!(store.get_parents(4), None);
}

fn label(action: &TestAction) -> String {
    match action {
        Action::Alert(_) => "alert".to_string(),
        Action::Network(RunwayNotificationOut::NewUnit(_)) => "new unit".to_string(),
        Action::Network(RunwayNotificationOut::Request(request, _)) => match request {
            Request::Coord(_) => "request unit".to_string(),
            Request::Parents(hash) => format!("request parents {}", hash),
            Request::NewestUnit(salt) => format!("request newest {}", salt),
        },
        Action::Network(RunwayNotificationOut::Response(_, node)) => format!("response {}", node.0),
        Action::Resolved(Request::Coord(_)) => "resolved unit".to_string(),
        Action::Resolved(Request::Parents(hash)) => format!("resolved parents {}", hash),
        Action::Resolved(Request::NewestUnit(salt)) => format!("resolved newest {}", salt),
        Action::Consensus(NotificationIn::NewUnits(units)) => format!("new units {}", units.len()),
        Action::Consensus(NotificationIn::UnitParents(hash, _)) => format!("parents {}", hash),
        Action::StartingRound(round) => format!("start {}", round),
        Action::SignNewest(_) => "sign newest".to_string(),
        Action::CreateUnit(_) => "create unit".to_string(),
        Action::OrderedBatch(batch) => format!("batch {}", batch.len()),
    }
}

type TestEvent = Event<Fnv, Text, Sig>;

/// Performs what a run has to do until it waits or stops. Everything is delivered except what has the
/// label `lost`. Tells whether the run waits.
fn settle(run: &mut Run<'_, Fnv, Text, Keys>, lost: &str, done: &mut Vec<String>) -> bool {
    loop {
        match run.next() {
            Next::Perform(action) => {
                let label = label(&action);
                let delivered = label != lost;
                done.push(label);
                let outcome = match action {
                    Action::SignNewest(response) => {
                        let message = response.digest();
                        let index = response.responder.0;
                        Outcome::Signed(Signed::new(response, Sig { index, message }))
                    }
                    Action::CreateUnit(pre_unit) => {
                        Outcome::Created(sign(run.runway().create_unit(pre_unit, Text(5))))
                    }
                    _ => Outcome::Delivered(delivered),
                };
                run.on_outcome(outcome);
            }
            Next::Await => return true,
            Next::Stop => return false,
        }
    }
}

/// What a run of node 0 performs on events, and how many of the events it handles.
fn run_through(events: Vec<TestEvent>, lost: &str) -> (Vec<String>, usize) {
    let keys = Keys;
    let mut run = Run::new(runway_of(0, &keys));
    let mut done = Vec::new();
    let mut handled = 0;
    let mut waits = settle(&mut run, lost, &mut done);
    for event in events {
        if !waits {
            break;
        }
        assert!(run.can_handle(&event));
        if !run.on_event(event) {
            break;
        }
        handled += 1;
        waits = settle(&mut run, lost, &mut done);
    }
    (done, handled)
}

fn response(message: Response<Fnv, Text, Sig>) -> TestEvent {
    Event::Network(Some(RunwayNotificationIn::Response(message)))
}

fn newest_answer(responder: usize, unit: Option<TestUnit>) -> TestEvent {
    response(Response::NewestUnit(newest(0, responder, unit, SALT)))
}

#[test]
fn run_keeps_its_order() {
    let request = RunwayNotificationIn::Request(Request::NewestUnit(9), NodeIndex(1));
    let mask = NodeMap::from_vec(vec![false; N]);
    let combined_hash = ControlHash::<Fnv>::combine_hashes(&NodeMap::from_vec(vec![None; N]));
    let control_hash = ControlHash { parents_mask: mask, combined_hash };
    let pre_unit = PreUnit::new(NodeIndex(0), 0, control_hash);
    let events = vec![
        Event::Network(Some(RunwayNotificationIn::NewUnit(initial(1)))),
        Event::Network(Some(request)),
        Event::CatchUpDelay,
        newest_answer(1, None),
        newest_answer(2, Some(second(0))),
        newest_answer(3, None),
        Event::Consensus(Some(NotificationOut::CreatedPreUnit(pre_unit, Vec::new()))),
        Event::Exit,
        Event::CatchUpDelay,
    ];
    let (done, handled) = run_through(events, "");
    assert_eq!(
        done,
        vec![
            "request newest 7",
            "new units 1",
            "sign newest",
            "response 1",
            "new units 0",
            "new units 0",
            "new units 0",
            "start 2",
            "resolved newest 7",
            "new units 1",
            "new units 0",
            "create unit",
            "new units 1",
            "new units 0",
        ]
    );
    assert_eq!(handled, 8);
}

#[test]
fn lost_start_stops_the_run_after_one_event() {
    let events = vec![Event::CatchUpDelay, Event::CatchUpDelay];
    let (done, handled) = run_through(events, "request newest 7");
    assert_eq!(done, vec!["request newest 7", "new units 0"]);
    assert_eq!(handled, 1);
}

#[test]
fn lost_starting_round_settles_no_request() {
    let events = vec![
        newest_answer(1, None),
        newest_answer(2, None),
        Event::CatchUpDelay,
        Event::CatchUpDelay,
    ];
    let (done, handled) = run_through(events, "start 0");
    assert_eq!(
        done,
        vec!["request newest 7", "new units 0", "new units 0", "start 0", "new units 0"]
    );
    assert_eq!(handled, 3);
}

#[test]
fn closed_stream_ends_the_run_at_once() {
    let events = vec![Event::CatchUpDelay, Event::Alerter(None), Event::CatchUpDelay];
    let (done, handled) = run_through(events, "");
    assert_eq!(done, vec!["request newest 7", "new units 0"]);
    assert_eq!(handled, 1);
}

#[test]
fn parents_requests_balance() {
    let wrong = || Event::Consensus(Some(NotificationOut::WrongControlHash(77)));
    let added = || Event::Consensus(Some(NotificationOut::AddedToDag(77, Vec::new())));
    let (done, _) = run_through(vec![wrong(), wrong(), added(), added()], "");
    let about: Vec<&String> = done.iter().filter(|label| label.contains("parents")).collect();
    assert_eq!(about, vec!["request parents 77", "resolved parents 77"]);
    let (done, _) = run_through(vec![added(), wrong()], "");
    assert!(!done.contains(&"resolved parents 77".to_string()));
    assert!(!done.contains(&"request parents 77".to_string()));
    assert!(done.contains(&"parents 77".to_string()));
}

#[test]
fn created_units_are_kept_unchecked() {
    let keys = Keys;
    let mut runway = runway_of(0, &keys);
    let late = unit(0, MAX_ROUND + 1, vec![Some(1), Some(2), Some(3), None], 0);
    assert!(runway.on_unit_received(late.clone(), false).is_empty());
    assert_eq!(asked_for(&runway, coord(MAX_ROUND + 1, 0)), None);
    runway.on_unit_created(late.clone());
    assert_eq!(asked_for(&runway, coord(MAX_ROUND + 1, 0)), Some(hash(&late)));
}

#[test]
fn refused_units_have_a_reason() {
    let keys = Keys;
    let runway = runway_of(0, &keys);
    assert_eq!(runway.unit_fault(&initial(1)), None);
    assert_eq!(runway.unit_fault(&second(1)), None);
    let full = full_unit(1, 0, vec![None; N], 1, SESSION);
    let message = full.hash();
    let unsigned = Signed::new(full, Sig { index: 2, message });
    assert_eq!(runway.unit_fault(&unsigned), Some(UnitFault::WrongSignature));
    let foreign = sign(full_unit(1, 0, vec![None; N], 1, SESSION + 1));
    assert_eq!(runway.unit_fault(&foreign), Some(UnitFault::WrongSession));
    let quorum = vec![Some(1), Some(2), Some(3), None];
    let late = unit(1, MAX_ROUND + 1, quorum.clone(), 0);
    assert_eq!(runway.unit_fault(&late), Some(UnitFault::RoundTooHigh));
    let stranger = unit(N, 0, vec![None; N], 0);
    assert_eq!(runway.unit_fault(&stranger), Some(UnitFault::CreatorTooHigh));
    let short = unit(1, 0, vec![None; N - 1], 0);
    assert_eq!(runway.unit_fault(&short), Some(UnitFault::WrongCommittee));
    let early = unit(1, 0, vec![None, Some(1), None, None], 0);
    assert_eq!(runway.unit_fault(&early), Some(UnitFault::ParentsInRoundZero));
    let few = unit(1, 1, vec![None, Some(1), Some(2), None], 0);
    assert_eq!(runway.unit_fault(&few), Some(UnitFault::TooFewParents));
    let orphan = unit(3, 1, quorum, 0);
    assert_eq!(runway.unit_fault(&orphan), Some(UnitFault::NoOwnParent));
    assert_eq!(runway.unit_parents_fault(&orphan), Some(UnitFault::NoOwnParent));
}

#[test]
fn refused_newest_answers_have_a_reason() {
    let keys = Keys;
    let mut runway = runway_of(0, &keys);
    assert_eq!(runway.newest_fault(&newest(0, 1, None, SALT)), None);
    assert_eq!(runway.newest_fault(&newest(0, 1, Some(second(0)), SALT)), None);
    let response = NewestUnitResponse {
        requester: NodeIndex(0),
        responder: NodeIndex(2),
        unit: None,
        salt: SALT,
    };
    let signature = Sig { index: 1, message: response.digest() };
    let unsigned = Signed::new(response, signature);
    assert_eq!(runway.newest_fault(&unsigned), Some(NewestFault::WrongSignature));
    let other = newest(0, 1, None, SALT + 1);
    assert_eq!(runway.newest_fault(&other), Some(NewestFault::WrongSalt));
    let foreign = sign(full_unit(0, 0, vec![None; N], 1, SESSION + 1));
    let bad = newest(0, 1, Some(foreign), SALT);
    assert_eq!(runway.newest_fault(&bad), Some(NewestFault::BadUnit(UnitFault::WrongSession)));
    let not_own = newest(0, 1, Some(initial(1)), SALT);
    assert_eq!(runway.newest_fault(&not_own), Some(NewestFault::NotOwnUnit));
    runway.on_catch_up_delay();
    runway.on_newest_response(newest(0, 1, None, SALT));
    runway.on_newest_response(newest(0, 2, None, SALT));
    let late = newest(0, 3, None, SALT);
    assert_eq!(runway.newest_fault(&late), Some(NewestFault::TooLate));
}

#[test]
fn refused_parents_have_a_reason() {
    let keys = Keys;
    let mut runway = runway_of(0, &keys);
    let u_hash = hash(&second(1));
    let parents = vec![initial(0), initial(1), initial(2)];
    assert_eq!(runway.parents_fault(u_hash, &parents), Some(ParentsFault::UnknownUnit));
    runway.on_unit_received(second(1), false);
    assert_eq!(runway.parents_fault(u_hash, &parents), None);
    let few = vec![initial(0), initial(1)];
    assert_eq!(runway.parents_fault(u_hash, &few), Some(ParentsFault::WrongNumber));
    let foreign = sign(full_unit(1, 0, vec![None; N], 1, SESSION + 1));
    let bad = vec![initial(0), foreign, initial(2)];
    let fault = ParentsFault::BadUnit(UnitFault::WrongSession);
    assert_eq!(runway.parents_fault(u_hash, &bad), Some(fault));
    let high = vec![initial(0), second(1), initial(2)];
    assert_eq!(runway.parents_fault(u_hash, &high), Some(ParentsFault::WrongRound));
    let swapped = vec![initial(0), initial(2), initial(1)];
    assert_eq!(runway.parents_fault(u_hash, &swapped), Some(ParentsFault::WrongCreator));
    let other = vec![initial(0), unit(1, 0, vec![None; N], 9), initial(2)];
    assert_eq!(runway.parents_fault(u_hash, &other), Some(ParentsFault::WrongControlHash));
    runway.on_parents_response(u_hash, parents);
    let again = vec![initial(0), initial(1), initial(2)];
    assert_eq!(runway.parents_fault(u_hash, &again), Some(ParentsFault::Known));
}

#[test]
fn repeated_answers_do_not_start_the_node() {
    let events = vec![
        Event::CatchUpDelay,
        newest_answer(1, None),
        newest_answer(1, None),
        newest_answer(1, None),
        newest_answer(2, None),
    ];
    let (done, _) = run_through(events, "");
    assert_eq!(
        done,
        vec![
            "request newest 7",
            "new units 0",
            "new units 0",
            "new units 0",
            "new units 0",
            "start 0",
            "resolved newest 7",
            "new units 0",
        ]
    );
}

#[test]
fn missing_units_are_requested_in_order() {
    let keys = Keys;
    let mut runway = runway_of(0, &keys);
    runway.on_unit_received(initial(2), false);
    let coords = vec![coord(3, 1), coord(0, 2), coord(1, 3), coord(3, 1), coord(2, 2)];
    let missing = NotificationOut::MissingUnits(coords);
    let actions = runway.on_event(Event::Consensus(Some(missing))).unwrap_or_default();
    let mut requested = Vec::new();
    for action in &actions {
        if let Action::Network(RunwayNotificationOut::Request(Request::Coord(c), _)) = action {
            requested.push(*c);
        }
    }
    assert_eq!(requested, vec![coord(3, 1), coord(1, 3), coord(2, 2)]);
}

#[test]
fn created_unit_is_spread_once_and_only_when_added() {
    let mask = NodeMap::from_vec(vec![false; N]);
    let combined_hash = ControlHash::<Fnv>::combine_hashes(&NodeMap::from_vec(vec![None; N]));
    let control_hash = ControlHash { parents_mask: mask, combined_hash };
    let pre_unit = PreUnit::new(NodeIndex(0), 0, control_hash);
    let own = unit(0, 0, vec![None; N], 5);
    let events = vec![
        Event::Consensus(Some(NotificationOut::CreatedPreUnit(pre_unit, Vec::new()))),
        Event::Consensus(Some(NotificationOut::AddedToDag(hash(&own), Vec::new()))),
    ];
    let (done, _) = run_through(events, "");
    assert_eq!(
        done,
        vec!["request newest 7", "create unit", "new units 1", "new unit", "new units 0"]
    );
}
