use earendil::addr::{Fingerprint, IdentityPublic};
use earendil::relay_graph::{claim_bytes, judge_edge, GraphError, RelayGraph};
use earendil_crypt::HavenIdentitySecret;

fn key_of(secret: &HavenIdentitySecret) -> IdentityPublic {
    let mut bytes = [0u8; 32];
    bytes.copy_from_slice(secret.public().as_ref());
    IdentityPublic { bytes }
}

fn sign(secret: &HavenIdentitySecret, a: &Fingerprint, b: &Fingerprint) -> Vec<u8> {
    secret.sign(&claim_bytes(a, b)).to_vec()
}

#[test]
fn claim_is_both_fingerprints_in_order() {
    let a = Fingerprint::from_bytes([1; 20]);
    let b = Fingerprint::from_bytes([2; 20]);
    let mut expected = vec![1u8; 20];
    expected.extend_from_slice(&[2u8; 20]);
    assert_eq!(claim_bytes(&a, &b), expected);
    assert_ne!(claim_bytes(&a, &b), claim_bytes(&b, &a));
}

#[test]
fn edge_needs_both_relays_and_both_signatures() {
    let alice = HavenIdentitySecret::from_bytes(&[1; 32]);
    let bob = HavenIdentitySecret::from_bytes(&[2; 32]);
    let mut graph = RelayGraph::new();
    let a = graph.insert_relay(key_of(&alice), [10; 32]);
    let b = key_of(&bob).fingerprint();
    let sig_a = sign(&alice, &a, &b);
    let sig_b = sign(&bob, &a, &b);

    assert_eq!(
        graph.insert_edge(a, b, sig_a.clone(), sig_b.clone()),
        Err(GraphError::UnknownVertex)
    );
    assert_eq!(graph.insert_relay(key_of(&bob), [11; 32]), b);
    assert_eq!(graph.relay_count(), 2);

    // signatures swapped, cut, or made over the claim the other way round
    assert_eq!(
        graph.insert_edge(a, b, sig_b.clone(), sig_a.clone()),
        Err(GraphError::BadSignature)
    );
    assert_eq!(
        graph.insert_edge(a, b, sig_a.clone(), sig_b[..63].to_vec()),
        Err(GraphError::BadSignature)
    );
    assert_eq!(
        graph.insert_edge(a, b, sign(&alice, &b, &a), sig_b.clone()),
        Err(GraphError::BadSignature)
    );
    assert_eq!(graph.edge_count(), 0);
    assert!(!graph.has_edge(&a, &b));

    assert_eq!(graph.insert_edge(a, b, sig_a, sig_b), Ok(()));
    assert_eq!(graph.edge_count(), 1);
    assert!(graph.has_edge(&a, &b));
    assert!(graph.has_edge(&b, &a));
    assert!(!graph.has_edge(&a, &a));
}

#[test]
fn unknown_vertex_is_told_before_bad_signature() {
    assert_eq!(judge_edge(false, true, false, true), Err(GraphError::UnknownVertex));
    assert_eq!(judge_edge(true, false, true, true), Err(GraphError::UnknownVertex));
    assert_eq!(judge_edge(true, true, false, true), Err(GraphError::BadSignature));
    assert_eq!(judge_edge(true, true, true, false), Err(GraphError::BadSignature));
    assert_eq!(judge_edge(true, true, true, true), Ok(()));
}

#[test]
fn known_relay_keeps_its_place() {
    let alice = HavenIdentitySecret::from_bytes(&[1; 32]);
    let mut graph = RelayGraph::new();
    let a = graph.insert_relay(key_of(&alice), [10; 32]);
    assert_eq!(graph.insert_relay(key_of(&alice), [12; 32]), a);
    assert_eq!(graph.relay_count(), 1);
    assert_eq!(graph.find_relay(&a), Some(0));
    assert_eq!(graph.find_relay(&Fingerprint::from_bytes([0; 20])), None);
}

#[test]
fn snapshot_replaces_the_graph() {
    let alice = HavenIdentitySecret::from_bytes(&[1; 32]);
    let mut graph = RelayGraph::new();
    graph.insert_relay(key_of(&alice), [10; 32]);
    graph.replace(RelayGraph::new());
    assert_eq!(graph.relay_count(), 0);
}

struct Net {
    graph: RelayGraph,
    secrets: Vec<HavenIdentitySecret>,
    relays: Vec<Fingerprint>,
}

fn net(relays: u8, edges: &[(usize, usize)]) -> Net {
    let mut graph = RelayGraph::new();
    let secrets: Vec<HavenIdentitySecret> =
        (0..relays).map(|i| HavenIdentitySecret::from_bytes(&[i + 1; 32])).collect();
    let fingerprints: Vec<Fingerprint> =
        secrets.iter().map(|secret| graph.insert_relay(key_of(secret), [0; 32])).collect();
    for &(a, b) in edges {
        let (fa, fb) = (fingerprints[a], fingerprints[b]);
        let taken =
            graph.insert_edge(fa, fb, sign(&secrets[a], &fa, &fb), sign(&secrets[b], &fa, &fb));
        assert_eq!(taken, Ok(()));
    }
    Net { graph, secrets, relays: fingerprints }
}

#[test]
fn path_is_a_shortest_walk_within_the_hop_limit() {
    // a ring of five relays, and a sixth that stands alone
    let net = net(6, &[(0, 1), (1, 2), (2, 3), (3, 4), (0, 4)]);
    let r = &net.relays;
    assert_eq!(net.secrets.len(), 6);
    assert_eq!(net.graph.path(&r[0], &r[0], 0), Some(vec![r[0]]));
    assert_eq!(net.graph.path(&r[0], &r[1], 1), Some(vec![r[0], r[1]]));
    assert_eq!(net.graph.path(&r[1], &r[0], 5), Some(vec![r[1], r[0]]));
    assert_eq!(net.graph.path(&r[0], &r[2], 5), Some(vec![r[0], r[1], r[2]]));
    assert_eq!(net.graph.path(&r[0], &r[3], 2), Some(vec![r[0], r[4], r[3]]));
    assert_eq!(net.graph.path(&r[0], &r[3], usize::MAX), Some(vec![r[0], r[4], r[3]]));
    assert_eq!(net.graph.path(&r[0], &r[3], 1), None);
    assert_eq!(net.graph.path(&r[0], &r[2], 1), None);
    assert_eq!(net.graph.path(&r[0], &r[1], 0), None);
    // no way leads to the relay that stands alone, nor to a stranger
    assert_eq!(net.graph.path(&r[0], &r[5], 100), None);
    assert_eq!(net.graph.path(&r[5], &r[5], 0), Some(vec![r[5]]));
    let stranger = Fingerprint::from_bytes([0; 20]);
    assert_eq!(net.graph.path(&r[0], &stranger, 100), None);
    assert_eq!(net.graph.path(&stranger, &stranger, 100), None);
}

#[test]
fn path_goes_the_long_way_round_where_it_must() {
    let net = net(5, &[(0, 1), (1, 2), (2, 3), (3, 4)]);
    let r = &net.relays;
    assert_eq!(net.graph.path(&r[0], &r[4], 4), Some(vec![r[0], r[1], r[2], r[3], r[4]]));
    assert_eq!(net.graph.path(&r[4], &r[0], 4), Some(vec![r[4], r[3], r[2], r[1], r[0]]));
    assert_eq!(net.graph.path(&r[0], &r[4], 3), None);
}

#[test]
fn prune_drops_the_relays_without_edges() {
    let mut net = net(4, &[(0, 2)]);
    let r = net.relays.clone();
    assert!(net.graph.has_edges(&r[0]));
    assert!(!net.graph.has_edges(&r[1]));
    net.graph.prune();
    assert_eq!(net.graph.relay_count(), 2);
    assert_eq!(net.graph.edge_count(), 1);
    assert!(net.graph.find_relay(&r[0]).is_some());
    assert!(net.graph.find_relay(&r[1]).is_none());
    assert!(net.graph.find_relay(&r[2]).is_some());
    assert!(net.graph.find_relay(&r[3]).is_none());
    assert!(net.graph.has_edge(&r[2], &r[0]));
    assert_eq!(net.graph.path(&r[0], &r[2], 1), Some(vec![r[0], r[2]]));
}

#[test]
fn of_two_shortest_ways_the_smaller_fingerprint_goes_first() {
    // a square: two ways of two hops lead from corner 0 to corner 2
    for edges in [
        [(0, 1), (1, 2), (0, 3), (3, 2)],
        [(3, 2), (0, 3), (1, 2), (0, 1)],
        [(2, 1), (2, 3), (1, 0), (3, 0)],
    ] {
        let net = net(4, &edges);
        let r = &net.relays;
        let middle = if r[1].bytes < r[3].bytes { r[1] } else { r[3] };
        assert_eq!(net.graph.path(&r[0], &r[2], 2), Some(vec![r[0], middle, r[2]]));
        assert_eq!(net.graph.path(&r[0], &r[2], 9), Some(vec![r[0], middle, r[2]]));
        assert_eq!(net.graph.path(&r[2], &r[0], 2), Some(vec![r[2], middle, r[0]]));
        let corner = if r[0].bytes < r[2].bytes { r[0] } else { r[2] };
        assert_eq!(net.graph.path(&r[1], &r[3], 2), Some(vec![r[1], corner, r[3]]));
    }
}

#[test]
fn earlier_relay_decides_between_ways_of_the_same_length() {
    // two ways of three hops from 0 to 5: over 1 and 2, or over 3 and 4
    let net = net(6, &[(0, 1), (1, 2), (2, 5), (0, 3), (3, 4), (4, 5)]);
    let r = &net.relays;
    let expected = if r[1].bytes < r[3].bytes {
        vec![r[0], r[1], r[2], r[5]]
    } else {
        vec![r[0], r[3], r[4], r[5]]
    };
    assert_eq!(net.graph.path(&r[0], &r[5], 3), Some(expected));
    assert!(r[0].precedes(&r[1]) != r[1].precedes(&r[0]));
    assert!(!r[0].precedes(&r[0]));
}
