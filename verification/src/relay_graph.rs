use vstd::prelude::*;
use crate::addr::{
    append_bytes, fingerprint_of_key, lemma_fingerprints_are_ordered, lex_less,
    signature_accepted, Fingerprint, IdentityPublic,
};

verus! {

/// A vertex of the relay graph.
#[derive(Clone, Copy, Debug)]
pub struct Relay {
    pub fingerprint: Fingerprint,
    pub identity_pk: IdentityPublic,
    pub dh_pk: [u8; 32],
}

/// An edge of the relay graph: the claim of two relays to be neighbours,
/// signed by both.
#[derive(Debug)]
pub struct Adjacency {
    pub a: Fingerprint,
    pub b: Fingerprint,
    pub sig_a: Vec<u8>,
    pub sig_b: Vec<u8>,
}

/// Why an edge was not taken.
#[derive(Clone, Copy, Debug, PartialEq, Eq, Structural)]
pub enum GraphError {
    /// One of the two signatures does not verify.
    BadSignature,
    /// One of the two relays is not in the graph.
    UnknownVertex,
}

/// The bytes that both relays of an edge sign: the two fingerprints, the one
/// of `a` first.
pub open spec fn adjacency_claim(a: Fingerprint, b: Fingerprint) -> Seq<u8> {
    a@ + b@
}

/// Whether `relays` holds `fingerprint`.
pub open spec fn is_vertex(relays: Seq<Relay>, fingerprint: Fingerprint) -> bool {
    exists|i: int| 0 <= i < relays.len() && (#[trigger] relays[i]).fingerprint == fingerprint
}

/// `way` comes before `walk` or goes along it: the two agree as far as `way`
/// reaches, or where they first differ the relay of `way` has the smaller
/// fingerprint.
pub open spec fn ahead_or_same(way: Seq<Fingerprint>, walk: Seq<Fingerprint>) -> bool {
    ||| forall|j: int| 0 <= j < way.len() ==> way[j] == walk[j]
    ||| exists|m: int|
        0 <= m < way.len() && lex_less(way[m]@, walk[m]@) && forall|j: int|
            0 <= j < m ==> way[j] == walk[j]
}

/// Whether `sig` is the signature of `claim` under the key of the relay
/// `signer` of `relays`.
pub open spec fn signed_by(relays: Seq<Relay>, signer: Fingerprint, claim: Seq<u8>, sig: Seq<u8>) -> bool {
    exists|i: int|
        0 <= i < relays.len() && (#[trigger] relays[i]).fingerprint == signer
            && signature_accepted(relays[i].identity_pk@, claim, sig)
}

/// Both sides' signatures of an edge verify.
pub open spec fn edge_verifies(relays: Seq<Relay>, edge: Adjacency) -> bool {
    &&& signed_by(relays, edge.a, adjacency_claim(edge.a, edge.b), edge.sig_a@)
    &&& signed_by(relays, edge.b, adjacency_claim(edge.a, edge.b), edge.sig_b@)
}

/// What becomes of an edge: it is refused with `UnknownVertex` where a relay
/// is missing, else with `BadSignature` where a signature fails.
pub open spec fn edge_verdict(known_a: bool, known_b: bool, sig_a_ok: bool, sig_b_ok: bool) -> Result<
    (),
    GraphError,
> {
    if !known_a || !known_b {
        Err(GraphError::UnknownVertex)
    } else if !sig_a_ok || !sig_b_ok {
        Err(GraphError::BadSignature)
    } else {
        Ok(())
    }
}

/// Decides on an edge from what is known of its relays and its signatures.
pub fn judge_edge(known_a: bool, known_b: bool, sig_a_ok: bool, sig_b_ok: bool) -> (verdict: Result<
    (),
    GraphError,
>)
    ensures
        verdict == edge_verdict(known_a, known_b, sig_a_ok, sig_b_ok),
{
    if !known_a || !known_b {
        Err(GraphError::UnknownVertex)
    } else if !sig_a_ok || !sig_b_ok {
        Err(GraphError::BadSignature)
    } else {
        Ok(())
    }
}

/// The bytes of an adjacency claim.
pub fn claim_bytes(a: &Fingerprint, b: &Fingerprint) -> (claim: Vec<u8>)
    ensures
        claim@ == adjacency_claim(*a, *b),
{
    let mut claim: Vec<u8> = Vec::new();
    append_bytes(&mut claim, a.bytes.as_slice());
    append_bytes(&mut claim, b.bytes.as_slice());
    assert(claim@ =~= a@ + b@);
    claim
}

/// The signed adjacency graph of the relays.
pub struct RelayGraph {
    relays: Vec<Relay>,
    edges: Vec<Adjacency>,
}

impl RelayGraph {
    /// The vertices, in the order in which they came.
    pub closed spec fn relays(&self) -> Seq<Relay> {
        self.relays@
    }

    /// The edges, in the order in which they came.
    pub closed spec fn edges(&self) -> Seq<Adjacency> {
        self.edges@
    }

    /// Every relay stands under the fingerprint of its key, no fingerprint
    /// stands twice, and both signatures of every edge verify.
    pub open spec fn wf(&self) -> bool {
        &&& forall|i: int|
            0 <= i < self.relays().len() ==> (#[trigger] self.relays()[i]).fingerprint@
                == fingerprint_of_key(self.relays()[i].identity_pk@)
        &&& forall|i: int, j: int|
            0 <= i < j < self.relays().len() ==> (#[trigger] self.relays()[i]).fingerprint != (
            #[trigger] self.relays()[j]).fingerprint
        &&& forall|e: int|
            0 <= e < self.edges().len() ==> edge_verifies(self.relays(), #[trigger] self.edges()[e])
    }

    /// Whether the graph holds an edge between `a` and `b`, whoever of the
    /// two stands first in it.
    pub open spec fn adjacent(&self, a: Fingerprint, b: Fingerprint) -> bool {
        exists|e: int|
            0 <= e < self.edges().len() && (((#[trigger] self.edges()[e]).a == a
                && self.edges()[e].b == b) || (self.edges()[e].a == b && self.edges()[e].b == a))
    }

    /// Whether `walk` leads through the graph: it begins at a relay of the
    /// graph, and every step of it goes along an edge.
    pub open spec fn is_walk(&self, walk: Seq<Fingerprint>) -> bool {
        &&& walk.len() >= 1
        &&& is_vertex(self.relays(), walk[0])
        &&& forall|i: int|
            0 <= i < walk.len() - 1 ==> self.adjacent(#[trigger] walk[i], walk[i + 1])
    }

    /// Whether `walk` leads through the graph from `src` to `dst`.
    pub open spec fn connects(&self, walk: Seq<Fingerprint>, src: Fingerprint, dst: Fingerprint) -> bool {
        &&& self.is_walk(walk)
        &&& walk[0] == src
        &&& walk[walk.len() - 1] == dst
    }

    /// Whether some edge of the graph begins or ends at `fingerprint`.
    pub open spec fn touched(&self, fingerprint: Fingerprint) -> bool {
        exists|e: int|
            0 <= e < self.edges().len() && ((#[trigger] self.edges()[e]).a == fingerprint
                || self.edges()[e].b == fingerprint)
    }

    /// A graph without relays.
    pub fn new() -> (graph: RelayGraph)
        ensures
            graph.wf(),
            graph.relays() == Seq::<Relay>::empty(),
            graph.edges() == Seq::<Adjacency>::empty(),
    {
        RelayGraph { relays: Vec::new(), edges: Vec::new() }
    }

    /// The place of the relay `fingerprint`.
    pub fn find_relay(&self, fingerprint: &Fingerprint) -> (at: Option<usize>)
        ensures
            match at {
                Some(i) => i < self.relays().len() && self.relays()[i as int].fingerprint
                    == *fingerprint,
                None => !is_vertex(self.relays(), *fingerprint),
            },
    {
        let mut i: usize = 0;
        while i < self.relays.len()
            invariant
                i <= self.relays@.len(),
                forall|j: int|
                    0 <= j < i ==> (#[trigger] self.relays@[j]).fingerprint != *fingerprint,
            decreases self.relays@.len() - i,
        {
            if self.relays[i].fingerprint == *fingerprint {
                return Some(i);
            }
            i += 1;
        }
        None
    }

    /// Takes a relay into the graph, under the fingerprint of its key, and
    /// returns that fingerprint. A relay that is known keeps its key and gets
    /// the new DH key.
    pub fn insert_relay(&mut self, identity_pk: IdentityPublic, dh_pk: [u8; 32]) -> (fingerprint:
        Fingerprint)
        requires
            old(self).wf(),
        ensures
            final(self).wf(),
            fingerprint@ == fingerprint_of_key(identity_pk@),
            final(self).edges() == old(self).edges(),
            is_vertex(final(self).relays(), fingerprint),
            forall|other: Fingerprint|
                is_vertex(old(self).relays(), other) ==> is_vertex(final(self).relays(), other),
            is_vertex(old(self).relays(), fingerprint) ==> exists|i: int|
                0 <= i < old(self).relays().len() && (#[trigger] old(self).relays()[i]).fingerprint
                    == fingerprint && final(self).relays() == old(self).relays().update(
                    i,
                    Relay { dh_pk, ..old(self).relays()[i] },
                ),
            !is_vertex(old(self).relays(), fingerprint) ==> final(self).relays() == old(self).relays().push(Relay { fingerprint, identity_pk, dh_pk }),
    {
        let fingerprint = identity_pk.fingerprint();
        match self.find_relay(&fingerprint) {
            Some(i) => {
                let known = self.relays[i];
                self.relays[i] = Relay { dh_pk, ..known };
                proof {
                    let before = old(self).relays();
                    let after = self.relays();
                    lemma_relays_kept(before, after, old(self).edges());
                    assert(after[i as int].fingerprint == fingerprint);
                }
            },
            None => {
                let relay = Relay { fingerprint, identity_pk, dh_pk };
                self.relays.push(relay);
                proof {
                    let before = old(self).relays();
                    let after = self.relays();
                    lemma_relays_kept(before, after, old(self).edges());
                    assert(after[after.len() - 1].fingerprint == fingerprint);
                    assert forall|i: int, j: int| 0 <= i < j < after.len() implies (
                    #[trigger] after[i]).fingerprint != (#[trigger] after[j]).fingerprint by {
                        if j == before.len() {
                            assert(before[i].fingerprint != fingerprint);
                        } else {
                            assert(before[i].fingerprint != before[j].fingerprint);
                        }
                    }
                }
            },
        }
        fingerprint
    }

    /// Takes the edge between `a` and `b` into the graph if both are relays
    /// of the graph and both signatures of the adjacency claim verify under
    /// their keys. Fails with `UnknownVertex` or `BadSignature` otherwise, as
    /// `edge_verdict` says, and the graph is then unchanged.
    pub fn insert_edge(&mut self, a: Fingerprint, b: Fingerprint, sig_a: Vec<u8>, sig_b: Vec<u8>) -> (taken:
        Result<(), GraphError>)
        requires
            old(self).wf(),
        ensures
            final(self).wf(),
            final(self).relays() == old(self).relays(),
            taken == edge_verdict(
                is_vertex(old(self).relays(), a),
                is_vertex(old(self).relays(), b),
                signed_by(old(self).relays(), a, adjacency_claim(a, b), sig_a@),
                signed_by(old(self).relays(), b, adjacency_claim(a, b), sig_b@),
            ),
            match taken {
                Ok(_) => final(self).edges() == old(self).edges().push(
                    Adjacency { a, b, sig_a, sig_b },
                ),
                Err(_) => final(self).edges() == old(self).edges(),
            },
    {
        let claim = claim_bytes(&a, &b);
        let at_a = self.find_relay(&a);
        let at_b = self.find_relay(&b);
        let sig_a_ok = match at_a {
            Some(i) => self.relays[i].identity_pk.verify(claim.as_slice(), sig_a.as_slice()),
            None => false,
        };
        let sig_b_ok = match at_b {
            Some(i) => self.relays[i].identity_pk.verify(claim.as_slice(), sig_b.as_slice()),
            None => false,
        };
        proof {
            lemma_signed_by_at(self.relays(), at_a, a, claim@, sig_a@, sig_a_ok);
            lemma_signed_by_at(self.relays(), at_b, b, claim@, sig_b@, sig_b_ok);
        }
        let verdict = judge_edge(at_a.is_some(), at_b.is_some(), sig_a_ok, sig_b_ok);
        match verdict {
            Ok(_) => {
                self.edges.push(Adjacency { a, b, sig_a, sig_b });
                proof {
                    assert forall|e: int| 0 <= e < self.edges().len() implies edge_verifies(
                        self.relays(),
                        #[trigger] self.edges()[e],
                    ) by {
                        if e < old(self).edges().len() {
                            assert(edge_verifies(old(self).relays(), old(self).edges()[e]));
                        }
                    }
                }
            },
            Err(_) => {},
        }
        verdict
    }

    /// Whether the graph holds an edge between `a` and `b`.
    pub fn has_edge(&self, a: &Fingerprint, b: &Fingerprint) -> (found: bool)
        ensures
            found == self.adjacent(*a, *b),
    {
        let mut e: usize = 0;
        while e < self.edges.len()
            invariant
                e <= self.edges@.len(),
                forall|k: int|
                    0 <= k < e ==> !(((#[trigger] self.edges@[k]).a == *a && self.edges@[k].b == *b)
                        || (self.edges@[k].a == *b && self.edges@[k].b == *a)),
            decreases self.edges@.len() - e,
        {
            let edge = &self.edges[e];
            if (edge.a == *a && edge.b == *b) || (edge.a == *b && edge.b == *a) {
                assert((self.edges()[e as int].a == *a && self.edges()[e as int].b == *b) || (
                self.edges()[e as int].a == *b && self.edges()[e as int].b == *a));
                return true;
            }
            e += 1;
        }
        false
    }

    /// The places of the two relays of every edge.
    fn edge_places(&self) -> (pairs: Vec<(usize, usize)>)
        requires
            self.wf(),
        ensures
            pairs_ok(self.relays(), self.edges(), pairs@),
    {
        let mut pairs: Vec<(usize, usize)> = Vec::new();
        let mut e: usize = 0;
        while e < self.edges.len()
            invariant
                e <= self.edges@.len(),
                self.wf(),
                pairs@.len() == e,
                forall|f: int|
                    0 <= f < e ==> (#[trigger] pairs@[f]).0 < self.relays().len() && pairs@[f].1
                        < self.relays().len() && self.relays()[pairs@[f].0 as int].fingerprint
                        == self.edges()[f].a && self.relays()[pairs@[f].1 as int].fingerprint
                        == self.edges()[f].b,
            decreases self.edges@.len() - e,
        {
            proof {
                lemma_edges_are_signed(*self, e as int);
            }
            // both relays of an edge are in the graph: `None` cannot be
            let a = match self.find_relay(&self.edges[e].a) {
                Some(i) => i,
                None => 0,
            };
            let b = match self.find_relay(&self.edges[e].b) {
                Some(i) => i,
                None => 0,
            };
            pairs.push((a, b));
            e += 1;
        }
        pairs
    }

    /// The way through the graph from `src` to `dst` that costs least among
    /// those of `k` hops at most: the relays along it, `src` first and `dst`
    /// last. The cost of a way is the number of its hops; of two ways of the
    /// same cost the one comes first whose relay has the smaller fingerprint
    /// where they first differ. There is no way exactly if every walk from
    /// `src` to `dst` takes more than `k` hops, or if there is no walk at
    /// all.
    pub fn path(&self, src: &Fingerprint, dst: &Fingerprint, k: usize) -> (found: Option<
        Vec<Fingerprint>,
    >)
        requires
            self.wf(),
        ensures
            match found {
                Some(way) => {
                    &&& self.connects(way@, *src, *dst)
                    &&& way@.len() - 1 <= k
                    &&& forall|walk: Seq<Fingerprint>| #[trigger]
                        self.connects(walk, *src, *dst) ==> way@.len() <= walk.len()
                    &&& forall|walk: Seq<Fingerprint>| #[trigger]
                        self.connects(walk, *src, *dst) && walk.len() == way@.len()
                            ==> ahead_or_same(way@, walk)
                },
                None => forall|walk: Seq<Fingerprint>| #[trigger]
                    self.connects(walk, *src, *dst) ==> walk.len() - 1 > k,
            },
    {
        let n = self.relays.len();
        let s = match self.find_relay(src) {
            Some(i) => i,
            None => {
                return None;
            },
        };
        let t = match self.find_relay(dst) {
            Some(i) => i,
            None => {
                proof {
                    assert forall|walk: Seq<Fingerprint>| #[trigger]
                        self.connects(walk, *src, *dst) implies walk.len() - 1 > k by {
                        lemma_walk_ends_at_vertex(*self, walk);
                    }
                }
                return None;
            },
        };
        let pairs = self.edge_places();
        proof {
            assert(pairs_within(pairs@, n as int)) by {
                assert forall|e: int| 0 <= e < pairs@.len() implies (#[trigger] pairs@[e]).0 < n
                    && pairs@[e].1 < n by {}
            }
        }
        // the hops from `dst` back to every relay that is near enough
        let (level, prev, complete) = hop_levels(n, &pairs, t, k);
        proof {
            assert forall|walk: Seq<Fingerprint>| #[trigger]
                self.connects(walk, *src, *dst) && (complete || walk.len() - 1
                    <= k) implies level@[s as int] is Some && level@[s as int].unwrap()
                <= walk.len() - 1 by {
                let d = if complete {
                    walk.len() - 1
                } else {
                    k as int
                };
                let back = lemma_back_walk(*self, walk, 0);
                let at = lemma_walk_levels(*self, pairs@, level@, t as int, d, back);
                lemma_same_place(self.relays(), at, s as int);
            }
            assert(within(level@, s as int, k as int));
        }
        let hops = match level[s] {
            Some(j) => j,
            None => {
                return None;
            },
        };
        let mut way: Vec<Fingerprint> = Vec::new();
        way.push(self.relays[s].fingerprint);
        let mut cur: usize = s;
        let mut done: usize = 0;
        proof {
            assert forall|walk: Seq<Fingerprint>| #[trigger]
                self.connects(walk, *src, *dst) && walk.len() == hops + 1 implies ahead_or_same(
                way@,
                walk,
            ) by {}
        }
        while done < hops
            invariant
                self.wf(),
                done <= hops,
                hops <= k,
                cur < n,
                t < n,
                n == self.relays().len(),
                level@.len() == n,
                prev@.len() == n,
                pairs_ok(self.relays(), self.edges(), pairs@),
                pairs_within(pairs@, n as int),
                tree_ok(pairs@, level@, prev@, t as int),
                closed_below(pairs@, level@, pairs@.len() as int, k as int),
                self.relays()[t as int].fingerprint == *dst,
                level@[cur as int] == Some((hops - done) as usize),
                way@.len() == done + 1,
                way@[0] == *src,
                way@[done as int] == self.relays()[cur as int].fingerprint,
                forall|i: int| 0 <= i < done ==> self.adjacent(#[trigger] way@[i], way@[i + 1]),
                forall|walk: Seq<Fingerprint>| #[trigger]
                    self.connects(walk, *src, *dst) && walk.len() == hops + 1 ==> ahead_or_same(
                        way@,
                        walk,
                    ),
            decreases hops - done,
        {
            let target = hops - done - 1;
            let mut best: Option<usize> = None;
            let mut e: usize = 0;
            while e < pairs.len()
                invariant
                    e <= pairs@.len(),
                    cur < n,
                    n == self.relays().len(),
                    level@.len() == n,
                    pairs_within(pairs@, n as int),
                    match best {
                        Some(b) => b < n && level@[b as int] == Some(target) && linked(
                            pairs@,
                            cur as int,
                            b as int,
                        ) && best_so_far(
                            self.relays(),
                            pairs@,
                            level@,
                            cur as int,
                            target as int,
                            e as int,
                            b as int,
                        ),
                        None => none_so_far(
                            self.relays(),
                            pairs@,
                            level@,
                            cur as int,
                            target as int,
                            e as int,
                        ),
                    },
                decreases pairs@.len() - e,
            {
                let a = pairs[e].0;
                let b = pairs[e].1;
                let ghost before = best;
                let forth = nearer(&self.relays, &level, a, b, cur, target, best);
                let back = nearer(&self.relays, &level, b, a, cur, target, forth);
                proof {
                    assert(pairs@[e as int].0 == a && pairs@[e as int].1 == b);
                    lemma_best_goes_on(
                        self.relays(),
                        pairs@,
                        level@,
                        cur as int,
                        target as int,
                        e as int,
                        before,
                        forth,
                        back,
                    );
                }
                best = back;
                e += 1;
            }
            let next = match best {
                Some(b) => b,
                None => {
                    // the relay under which `cur` hangs in the tree is one hop nearer
                    proof {
                        assert(node_ok(pairs@, level@, prev@, t as int, cur as int));
                        let p = prev@[cur as int] as int;
                        let f = choose|f: int|
                            0 <= f < pairs@.len() && (((#[trigger] pairs@[f]).0 == p && pairs@[f].1
                                == cur) || (pairs@[f].0 == cur && pairs@[f].1 == p));
                        assert(candidate(pairs@, level@, cur as int, target as int, f, p));
                    }
                    return None;
                },
            };
            proof {
                let step = self.relays()[next as int].fingerprint;
                let f = choose|f: int|
                    0 <= f < pairs@.len() && (((#[trigger] pairs@[f]).0 == cur && pairs@[f].1
                        == next) || (pairs@[f].0 == next && pairs@[f].1 == cur));
                assert(self.edges()[f].a == self.relays()[pairs@[f].0 as int].fingerprint);
                assert(self.adjacent(self.relays()[cur as int].fingerprint, step));
                assert forall|walk: Seq<Fingerprint>| #[trigger]
                    self.connects(walk, *src, *dst) && walk.len() == hops + 1 implies ahead_or_same(
                    way@.push(step),
                    walk,
                ) by {
                    if forall|j: int| 0 <= j < way@.len() ==> way@[j] == walk[j] {
                        let at = lemma_level_along_walk(
                            *self,
                            pairs@,
                            level@,
                            t as int,
                            k as int,
                            walk,
                            done + 1,
                        );
                        assert(walk[done as int] == way@[done as int]);
                        assert(self.adjacent(walk[done as int], walk[done + 1]));
                        let f = lemma_neighbour_is_candidate(
                            *self,
                            pairs@,
                            level@,
                            k as int,
                            target as int,
                            cur as int,
                            at,
                        );
                        assert(!lex_less(self.relays()[at].fingerprint@, step@));
                    }
                    lemma_stays_ahead(way@, step, walk);
                }
            }
            way.push(self.relays[next].fingerprint);
            cur = next;
            done += 1;
        }
        proof {
            assert(node_ok(pairs@, level@, prev@, t as int, cur as int));
            assert(cur == t);
            assert(is_vertex(self.relays(), way@[0])) by {
                assert(self.relays()[s as int].fingerprint == way@[0]);
            }
        }
        Some(way)
    }

    /// Whether some edge begins or ends at `fingerprint`.
    pub fn has_edges(&self, fingerprint: &Fingerprint) -> (found: bool)
        ensures
            found == self.touched(*fingerprint),
    {
        let mut e: usize = 0;
        while e < self.edges.len()
            invariant
                e <= self.edges@.len(),
                forall|f: int|
                    0 <= f < e ==> (#[trigger] self.edges@[f]).a != *fingerprint
                        && self.edges@[f].b != *fingerprint,
            decreases self.edges@.len() - e,
        {
            if self.edges[e].a == *fingerprint || self.edges[e].b == *fingerprint {
                assert(self.edges()[e as int].a == *fingerprint || self.edges()[e as int].b
                    == *fingerprint);
                return true;
            }
            e += 1;
        }
        false
    }

    /// Prunes the relays that no edge touches. The edges stay as they are,
    /// and so do the relays that an edge touches, each with its keys.
    pub fn prune(&mut self)
        requires
            old(self).wf(),
        ensures
            final(self).wf(),
            final(self).edges() == old(self).edges(),
            forall|i: int|
                0 <= i < final(self).relays().len() ==> old(self).relays().contains(
                    #[trigger] final(self).relays()[i],
                ) && old(self).touched(final(self).relays()[i].fingerprint),
            forall|j: int|
                0 <= j < old(self).relays().len() && old(self).touched(
                    (#[trigger] old(self).relays()[j]).fingerprint,
                ) ==> final(self).relays().contains(old(self).relays()[j]),
    {
        let mut kept: Vec<Relay> = Vec::new();
        let ghost mut from: Seq<int> = Seq::empty();
        let mut j: usize = 0;
        while j < self.relays.len()
            invariant
                j <= self.relays@.len(),
                *self == *old(self),
                self.wf(),
                from.len() == kept@.len(),
                forall|i: int|
                    0 <= i < kept@.len() ==> 0 <= #[trigger] from[i] < j && kept@[i]
                        == self.relays@[from[i]] && self.touched(kept@[i].fingerprint),
                forall|a: int, b: int| 0 <= a < b < from.len() ==> from[a] < from[b],
                forall|q: int|
                    0 <= q < j && self.touched((#[trigger] self.relays@[q]).fingerprint)
                        ==> exists|i: int| 0 <= i < kept@.len() && #[trigger] from[i] == q,
            decreases self.relays@.len() - j,
        {
            let relay = self.relays[j];
            if self.has_edges(&relay.fingerprint) {
                let ghost old_from = from;
                let ghost old_kept = kept@;
                kept.push(relay);
                proof {
                    from = from.push(j as int);
                    assert forall|q: int|
                        0 <= q < j + 1 && self.touched(
                            (#[trigger] self.relays@[q]).fingerprint,
                        ) implies exists|i: int| 0 <= i < kept@.len() && #[trigger] from[i] == q by {
                        if q < j {
                            let i = choose|i: int|
                                0 <= i < old_kept.len() && #[trigger] old_from[i] == q;
                            assert(from[i] == q);
                        } else {
                            assert(from[kept@.len() - 1] == q);
                        }
                    }
                }
            }
            j += 1;
        }
        proof {
            let before = self.relays@;
            let after = kept@;
            assert forall|i: int| 0 <= i < after.len() implies (#[trigger] after[i]).fingerprint@
                == fingerprint_of_key(after[i].identity_pk@) by {
                assert(after[i] == before[from[i]]);
            }
            assert forall|a: int, b: int| 0 <= a < b < after.len() implies (
            #[trigger] after[a]).fingerprint != (#[trigger] after[b]).fingerprint by {
                assert(from[a] < from[b]);
                assert(before[from[a]].fingerprint != before[from[b]].fingerprint);
            }
            assert forall|e: int| 0 <= e < self.edges().len() implies edge_verifies(
                after,
                #[trigger] self.edges()[e],
            ) by {
                let edge = self.edges()[e];
                assert(edge_verifies(before, edge));
                assert(self.touched(edge.a) && self.touched(edge.b));
                lemma_signed_by_pruned(
                    *self,
                    after,
                    from,
                    edge.a,
                    adjacency_claim(edge.a, edge.b),
                    edge.sig_a@,
                );
                lemma_signed_by_pruned(
                    *self,
                    after,
                    from,
                    edge.b,
                    adjacency_claim(edge.a, edge.b),
                    edge.sig_b@,
                );
            }
            assert forall|i: int| 0 <= i < after.len() implies before.contains(
                #[trigger] after[i],
            ) && self.touched(after[i].fingerprint) by {
                assert(before[from[i]] == after[i]);
            }
            assert forall|q: int|
                0 <= q < before.len() && self.touched(
                    (#[trigger] before[q]).fingerprint,
                ) implies after.contains(before[q]) by {
                let i = choose|i: int| 0 <= i < after.len() && #[trigger] from[i] == q;
                assert(after[i] == before[q]);
            }
        }
        self.relays = kept;
    }

    /// How many relays the graph holds.
    pub fn relay_count(&self) -> (n: usize)
        ensures
            n == self.relays().len(),
    {
        self.relays.len()
    }

    /// How many edges the graph holds.
    pub fn edge_count(&self) -> (n: usize)
        ensures
            n == self.edges().len(),
    {
        self.edges.len()
    }

    /// Puts a new snapshot in the place of the graph, as a whole.
    pub fn replace(&mut self, snapshot: RelayGraph)
        requires
            snapshot.wf(),
        ensures
            final(self).wf(),
            final(self).relays() == snapshot.relays(),
            final(self).edges() == snapshot.edges(),
    {
        *self = snapshot;
    }
}

/// In a graph that is well formed, both sides' signatures of every edge
/// verify under the keys of the relays that the edge joins.
pub proof fn lemma_edges_are_signed(graph: RelayGraph, e: int)
    requires
        graph.wf(),
        0 <= e < graph.edges().len(),
    ensures
        is_vertex(graph.relays(), graph.edges()[e].a),
        is_vertex(graph.relays(), graph.edges()[e].b),
        edge_verifies(graph.relays(), graph.edges()[e]),
{
    let edge = graph.edges()[e];
    assert(edge_verifies(graph.relays(), edge));
    let i = choose|i: int|
        0 <= i < graph.relays().len() && (#[trigger] graph.relays()[i]).fingerprint == edge.a
            && signature_accepted(
            graph.relays()[i].identity_pk@,
            adjacency_claim(edge.a, edge.b),
            edge.sig_a@,
        );
    let j = choose|j: int|
        0 <= j < graph.relays().len() && (#[trigger] graph.relays()[j]).fingerprint == edge.b
            && signature_accepted(
            graph.relays()[j].identity_pk@,
            adjacency_claim(edge.a, edge.b),
            edge.sig_b@,
        );
    assert(graph.relays()[i].fingerprint == edge.a);
    assert(graph.relays()[j].fingerprint == edge.b);
}

/// Relays that keep their fingerprints and keys keep being relays, and keep
/// the edges that they signed.
proof fn lemma_relays_kept(before: Seq<Relay>, after: Seq<Relay>, edges: Seq<Adjacency>)
    requires
        before.len() <= after.len(),
        forall|k: int|
            0 <= k < before.len() ==> (#[trigger] after[k]).fingerprint == before[k].fingerprint
                && after[k].identity_pk == before[k].identity_pk,
        forall|e: int| 0 <= e < edges.len() ==> edge_verifies(before, #[trigger] edges[e]),
    ensures
        forall|e: int| 0 <= e < edges.len() ==> edge_verifies(after, #[trigger] edges[e]),
        forall|other: Fingerprint| is_vertex(before, other) ==> is_vertex(after, other),
{
    assert forall|e: int| 0 <= e < edges.len() implies edge_verifies(
        after,
        #[trigger] edges[e],
    ) by {
        let edge = edges[e];
        assert(edge_verifies(before, edge));
        lemma_signed_by_kept(before, after, edge.a, adjacency_claim(edge.a, edge.b), edge.sig_a@);
        lemma_signed_by_kept(before, after, edge.b, adjacency_claim(edge.a, edge.b), edge.sig_b@);
    }
    assert forall|other: Fingerprint| is_vertex(before, other) implies is_vertex(after, other) by {
        let k = choose|k: int| 0 <= k < before.len() && (#[trigger] before[k]).fingerprint == other;
        assert(after[k].fingerprint == other);
    }
}

proof fn lemma_signed_by_kept(
    before: Seq<Relay>,
    after: Seq<Relay>,
    signer: Fingerprint,
    claim: Seq<u8>,
    sig: Seq<u8>,
)
    requires
        before.len() <= after.len(),
        forall|k: int|
            0 <= k < before.len() ==> (#[trigger] after[k]).fingerprint == before[k].fingerprint
                && after[k].identity_pk == before[k].identity_pk,
        signed_by(before, signer, claim, sig),
    ensures
        signed_by(after, signer, claim, sig),
{
    let i = choose|i: int|
        0 <= i < before.len() && (#[trigger] before[i]).fingerprint == signer
            && signature_accepted(before[i].identity_pk@, claim, sig);
    assert(after[i].fingerprint == signer && signature_accepted(after[i].identity_pk@, claim, sig));
}

proof fn lemma_signed_by_pruned(
    graph: RelayGraph,
    after: Seq<Relay>,
    from: Seq<int>,
    signer: Fingerprint,
    claim: Seq<u8>,
    sig: Seq<u8>,
)
    requires
        from.len() == after.len(),
        forall|i: int|
            0 <= i < after.len() ==> 0 <= #[trigger] from[i] < graph.relays().len() && after[i]
                == graph.relays()[from[i]],
        forall|q: int|
            0 <= q < graph.relays().len() && graph.touched(
                (#[trigger] graph.relays()[q]).fingerprint,
            ) ==> exists|i: int| 0 <= i < after.len() && #[trigger] from[i] == q,
        graph.touched(signer),
        signed_by(graph.relays(), signer, claim, sig),
    ensures
        signed_by(after, signer, claim, sig),
{
    let relays = graph.relays();
    let q = choose|q: int|
        0 <= q < relays.len() && (#[trigger] relays[q]).fingerprint == signer
            && signature_accepted(relays[q].identity_pk@, claim, sig);
    assert(graph.touched(relays[q].fingerprint));
    let i = choose|i: int| 0 <= i < after.len() && #[trigger] from[i] == q;
    assert(after[i].fingerprint == signer && signature_accepted(after[i].identity_pk@, claim, sig));
}

proof fn lemma_signed_by_at(
    relays: Seq<Relay>,
    at: Option<usize>,
    signer: Fingerprint,
    claim: Seq<u8>,
    sig: Seq<u8>,
    ok: bool,
)
    requires
        forall|i: int, j: int|
            0 <= i < j < relays.len() ==> (#[trigger] relays[i]).fingerprint != (
            #[trigger] relays[j]).fingerprint,
        match at {
            Some(i) => i < relays.len() && relays[i as int].fingerprint == signer && ok
                == signature_accepted(relays[i as int].identity_pk@, claim, sig),
            None => !is_vertex(relays, signer) && !ok,
        },
    ensures
        ok == signed_by(relays, signer, claim, sig),
        at.is_some() == is_vertex(relays, signer),
{
    match at {
        Some(i) => {
            assert(relays[i as int].fingerprint == signer);
            if signed_by(relays, signer, claim, sig) {
                let k = choose|k: int|
                    0 <= k < relays.len() && (#[trigger] relays[k]).fingerprint == signer
                        && signature_accepted(relays[k].identity_pk@, claim, sig);
                assert(k == i) by {
                    if k < i {
                        assert(relays[k].fingerprint != relays[i as int].fingerprint);
                    } else if k > i {
                        assert(relays[i as int].fingerprint != relays[k].fingerprint);
                    }
                }
            }
        },
        None => {
            if signed_by(relays, signer, claim, sig) {
                let k = choose|k: int|
                    0 <= k < relays.len() && (#[trigger] relays[k]).fingerprint == signer
                        && signature_accepted(relays[k].identity_pk@, claim, sig);
                assert(relays[k].fingerprint == signer);
            }
        },
    }
}

/// The places of the two relays of every edge.
spec fn pairs_ok(relays: Seq<Relay>, edges: Seq<Adjacency>, pairs: Seq<(usize, usize)>) -> bool {
    &&& pairs.len() == edges.len()
    &&& forall|e: int|
        0 <= e < pairs.len() ==> (#[trigger] pairs[e]).0 < relays.len() && pairs[e].1
            < relays.len() && relays[pairs[e].0 as int].fingerprint == edges[e].a
            && relays[pairs[e].1 as int].fingerprint == edges[e].b
}

/// Every edge joins two places below `n`.
spec fn pairs_within(pairs: Seq<(usize, usize)>, n: int) -> bool {
    forall|e: int| 0 <= e < pairs.len() ==> (#[trigger] pairs[e]).0 < n && pairs[e].1 < n
}

/// Some edge joins the relays at the places `u` and `v`.
spec fn linked(pairs: Seq<(usize, usize)>, u: int, v: int) -> bool {
    exists|e: int|
        0 <= e < pairs.len() && (((#[trigger] pairs[e]).0 == u && pairs[e].1 == v) || (pairs[e].0
            == v && pairs[e].1 == u))
}

/// A relay that is fewer than `d` hops away has its neighbour at most one
/// hop further.
spec fn step_ok(level: Seq<Option<usize>>, u: int, v: int, d: int) -> bool {
    level[u] is Some && level[u].unwrap() < d ==> level[v] is Some && level[v].unwrap()
        <= level[u].unwrap() + 1
}

/// `step_ok` along the edge at place `e`, in both directions.
spec fn edge_ok(pairs: Seq<(usize, usize)>, level: Seq<Option<usize>>, e: int, d: int) -> bool {
    &&& step_ok(level, pairs[e].0 as int, pairs[e].1 as int, d)
    &&& step_ok(level, pairs[e].1 as int, pairs[e].0 as int, d)
}

/// `edge_ok` for every edge among the first `upto`.
spec fn closed_below(pairs: Seq<(usize, usize)>, level: Seq<Option<usize>>, upto: int, d: int) -> bool {
    forall|e: int| 0 <= e < upto ==> #[trigger] edge_ok(pairs, level, e, d)
}

/// The relay at place `v` has its place in the tree of shortest hops rooted
/// at `s`: with level zero it is `s` itself, with a higher level it hangs by
/// an edge under a relay whose level is one less.
spec fn node_ok(
    pairs: Seq<(usize, usize)>,
    level: Seq<Option<usize>>,
    prev: Seq<usize>,
    s: int,
    v: int,
) -> bool {
    match level[v] {
        None => true,
        Some(j) => if j == 0 {
            v == s
        } else {
            &&& prev[v] < level.len()
            &&& level[prev[v] as int] == Some((j - 1) as usize)
            &&& linked(pairs, prev[v] as int, v)
        },
    }
}

/// The levels form a tree of shortest hops rooted at `s`.
spec fn tree_ok(
    pairs: Seq<(usize, usize)>,
    level: Seq<Option<usize>>,
    prev: Seq<usize>,
    s: int,
) -> bool {
    &&& level.len() == prev.len()
    &&& 0 <= s < level.len()
    &&& level[s] == Some(0usize)
    &&& forall|v: int| 0 <= v < level.len() ==> #[trigger] node_ok(pairs, level, prev, s, v)
}

/// The level of the relay at place `v`, if set, is `d` at most.
spec fn within(level: Seq<Option<usize>>, v: int, d: int) -> bool {
    level[v] is Some ==> level[v].unwrap() <= d
}

/// Every level that is set is `d` at most.
spec fn levels_within(level: Seq<Option<usize>>, d: int) -> bool {
    forall|v: int| 0 <= v < level.len() ==> #[trigger] within(level, v, d)
}

/// Giving the level `d + 1` to a relay `b` that had none, by way of a
/// neighbour `a` of level `d`, keeps the tree, the bound and what is closed.
proof fn lemma_relax(
    pairs: Seq<(usize, usize)>,
    s: int,
    before: Seq<Option<usize>>,
    before_prev: Seq<usize>,
    a: int,
    b: int,
    d: int,
)
    requires
        0 <= a < before.len(),
        0 <= b < before.len(),
        0 <= d < usize::MAX,
        pairs_within(pairs, before.len() as int),
        linked(pairs, a, b),
        before[a] == Some(d as usize),
        before[b].is_none(),
        tree_ok(pairs, before, before_prev, s),
        levels_within(before, d + 1),
        closed_below(pairs, before, pairs.len() as int, d),
    ensures
        tree_ok(
            pairs,
            before.update(b, Some((d + 1) as usize)),
            before_prev.update(b, a as usize),
            s,
        ),
        levels_within(before.update(b, Some((d + 1) as usize)), d + 1),
        closed_below(pairs, before.update(b, Some((d + 1) as usize)), pairs.len() as int, d),
        forall|u: int, v: int|
            0 <= u < before.len() && 0 <= v < before.len() && #[trigger] step_ok(
                before,
                u,
                v,
                d + 1,
            ) ==> step_ok(before.update(b, Some((d + 1) as usize)), u, v, d + 1),
{
    let after = before.update(b, Some((d + 1) as usize));
    let after_prev = before_prev.update(b, a as usize);
    assert forall|v: int| 0 <= v < after.len() implies #[trigger] node_ok(
        pairs,
        after,
        after_prev,
        s,
        v,
    ) by {
        assert(node_ok(pairs, before, before_prev, s, v));
    }
    assert forall|v: int| 0 <= v < after.len() implies #[trigger] within(after, v, d + 1) by {
        assert(within(before, v, d + 1));
    }
    assert forall|e: int| 0 <= e < pairs.len() implies #[trigger] edge_ok(pairs, after, e, d) by {
        assert(edge_ok(pairs, before, e, d));
    }
}

/// Looks along the edge from `a` to `b` in round `d`: where `a` is `d` hops
/// away and `b` has no level yet, `b` is `d + 1` hops away, by way of `a`.
/// Says whether `b` got its level.
fn relax(
    level: &mut Vec<Option<usize>>,
    prev: &mut Vec<usize>,
    Ghost(pairs): Ghost<Seq<(usize, usize)>>,
    Ghost(s): Ghost<int>,
    a: usize,
    b: usize,
    d: usize,
) -> (set: bool)
    requires
        a < old(level)@.len(),
        b < old(level)@.len(),
        d < usize::MAX,
        pairs_within(pairs, old(level)@.len() as int),
        linked(pairs, a as int, b as int),
        tree_ok(pairs, old(level)@, old(prev)@, s),
        levels_within(old(level)@, d + 1),
        closed_below(pairs, old(level)@, pairs.len() as int, d as int),
    ensures
        final(level)@.len() == old(level)@.len(),
        tree_ok(pairs, final(level)@, final(prev)@, s),
        levels_within(final(level)@, d + 1),
        closed_below(pairs, final(level)@, pairs.len() as int, d as int),
        step_ok(final(level)@, a as int, b as int, d + 1),
        forall|u: int, v: int|
            0 <= u < old(level)@.len() && 0 <= v < old(level)@.len() && #[trigger] step_ok(
                old(level)@,
                u,
                v,
                d + 1,
            ) ==> step_ok(final(level)@, u, v, d + 1),
        !set ==> final(level)@ == old(level)@,
        set ==> final(level)@[b as int] == Some((d + 1) as usize),
{
    let reached = match level[a] {
        Some(hops) => hops == d,
        None => false,
    };
    let open = match level[b] {
        Some(_) => false,
        None => true,
    };
    if reached && open {
        proof {
            lemma_relax(pairs, s, level@, prev@, a as int, b as int, d as int);
        }
        level.set(b, Some(d + 1));
        prev.set(b, a);
        true
    } else {
        proof {
            assert(within(level@, a as int, d + 1));
            assert(within(level@, b as int, d + 1));
            if level@[a as int] is Some && level@[a as int].unwrap() < d {
                let e = choose|e: int|
                    0 <= e < pairs.len() && (((#[trigger] pairs[e]).0 == a && pairs[e].1 == b) || (
                    pairs[e].0 == b && pairs[e].1 == a));
                assert(edge_ok(pairs, level@, e, d as int));
            }
        }
        false
    }
}

/// The hop counts from the relay at place `s`, found round by round along
/// the edges, for at most `k` rounds. The rounds end early once one of them
/// has found nothing new; the levels are then closed for good, which the
/// last component says.
fn hop_levels(n: usize, pairs: &Vec<(usize, usize)>, s: usize, k: usize) -> (out: (
    Vec<Option<usize>>,
    Vec<usize>,
    bool,
))
    requires
        s < n,
        pairs_within(pairs@, n as int),
    ensures
        out.0@.len() == n,
        out.1@.len() == n,
        tree_ok(pairs@, out.0@, out.1@, s as int),
        levels_within(out.0@, k as int),
        closed_below(pairs@, out.0@, pairs@.len() as int, k as int),
        out.2 ==> forall|d: int| closed_below(pairs@, out.0@, pairs@.len() as int, d),
{
    let mut level: Vec<Option<usize>> = Vec::new();
    let mut prev: Vec<usize> = Vec::new();
    let mut v: usize = 0;
    while v < n
        invariant
            v <= n,
            s < n,
            level@.len() == v,
            prev@.len() == v,
            forall|i: int| 0 <= i < v ==> #[trigger] level@[i] == (if i == s {
                Some(0usize)
            } else {
                None
            }),
        decreases n - v,
    {
        level.push(if v == s { Some(0) } else { None });
        prev.push(0);
        v += 1;
    }
    proof {
        assert forall|i: int| 0 <= i < n implies #[trigger] node_ok(
            pairs@,
            level@,
            prev@,
            s as int,
            i,
        ) by {}
        assert forall|i: int| 0 <= i < n implies #[trigger] within(level@, i, 0) by {}
        assert forall|e: int| 0 <= e < pairs@.len() implies #[trigger] edge_ok(
            pairs@,
            level@,
            e,
            0,
        ) by {}
    }
    let mut d: usize = 0;
    let mut complete = false;
    while d < k && !complete
        invariant
            d <= k,
            s < n,
            level@.len() == n,
            prev@.len() == n,
            pairs_within(pairs@, n as int),
            tree_ok(pairs@, level@, prev@, s as int),
            levels_within(level@, d as int),
            closed_below(pairs@, level@, pairs@.len() as int, d as int),
            complete ==> forall|dd: int| closed_below(pairs@, level@, pairs@.len() as int, dd),
        decreases
                k - d + (if complete {
                    0int
                } else {
                    1int
                }),
    {
        let mut changed = false;
        let mut e: usize = 0;
        proof {
            assert forall|i: int| 0 <= i < n implies #[trigger] within(level@, i, d + 1) by {
                assert(within(level@, i, d as int));
            }
        }
        while e < pairs.len()
            invariant
                e <= pairs@.len(),
                d < k,
                s < n,
                level@.len() == n,
                prev@.len() == n,
                pairs_within(pairs@, n as int),
                tree_ok(pairs@, level@, prev@, s as int),
                levels_within(level@, d + 1),
                closed_below(pairs@, level@, pairs@.len() as int, d as int),
                closed_below(pairs@, level@, e as int, d + 1),
                !changed ==> levels_within(level@, d as int),
            decreases pairs@.len() - e,
        {
            let a = pairs[e].0;
            let b = pairs[e].1;
            let ghost start = level@;
            proof {
                assert(pairs@[e as int].0 == a && pairs@[e as int].1 == b);
                assert(linked(pairs@, a as int, b as int));
                assert(linked(pairs@, b as int, a as int));
            }
            let forth = relax(&mut level, &mut prev, Ghost(pairs@), Ghost(s as int), a, b, d);
            let ghost middle = level@;
            let back = relax(&mut level, &mut prev, Ghost(pairs@), Ghost(s as int), b, a, d);
            if forth || back {
                changed = true;
            }
            proof {
                assert(step_ok(level@, a as int, b as int, d + 1));
                assert(step_ok(level@, b as int, a as int, d + 1));
                assert forall|f: int| 0 <= f < e + 1 implies #[trigger] edge_ok(
                    pairs@,
                    level@,
                    f,
                    d + 1,
                ) by {
                    if f < e {
                        assert(edge_ok(pairs@, start, f, d + 1));
                        assert(step_ok(middle, pairs@[f].0 as int, pairs@[f].1 as int, d + 1));
                        assert(step_ok(middle, pairs@[f].1 as int, pairs@[f].0 as int, d + 1));
                    }
                }
            }
            e += 1;
        }
        if changed {
            d += 1;
        } else {
            complete = true;
            proof {
                assert forall|dd: int| closed_below(pairs@, level@, pairs@.len() as int, dd) by {
                    assert forall|f: int| 0 <= f < pairs@.len() implies #[trigger] edge_ok(
                        pairs@,
                        level@,
                        f,
                        dd,
                    ) by {
                        assert(edge_ok(pairs@, level@, f, d + 1));
                        assert(within(level@, pairs@[f].0 as int, d as int));
                        assert(within(level@, pairs@[f].1 as int, d as int));
                    }
                }
            }
        }
    }
    proof {
        assert forall|i: int| 0 <= i < n implies #[trigger] within(level@, i, k as int) by {
            assert(within(level@, i, d as int));
        }
        if !complete {
            assert(d == k);
        }
    }
    (level, prev, complete)
}

/// The relay at place `c` is the neighbour of the relay at `cur` along the
/// edge at place `f`, and `target` hops away from the root.
spec fn candidate(
    pairs: Seq<(usize, usize)>,
    level: Seq<Option<usize>>,
    cur: int,
    target: int,
    f: int,
    c: int,
) -> bool {
    &&& (pairs[f].0 == cur && pairs[f].1 == c) || (pairs[f].1 == cur && pairs[f].0 == c)
    &&& level[c] == Some(target as usize)
}

/// No candidate along the first `upto` edges has a smaller fingerprint than
/// the relay at place `b`.
spec fn best_so_far(
    relays: Seq<Relay>,
    pairs: Seq<(usize, usize)>,
    level: Seq<Option<usize>>,
    cur: int,
    target: int,
    upto: int,
    b: int,
) -> bool {
    forall|f: int, c: int|
        0 <= f < upto && 0 <= c < relays.len() && #[trigger] candidate(
            pairs,
            level,
            cur,
            target,
            f,
            c,
        ) ==> !lex_less(relays[c].fingerprint@, relays[b].fingerprint@)
}

/// There is no candidate along the first `upto` edges.
spec fn none_so_far(
    relays: Seq<Relay>,
    pairs: Seq<(usize, usize)>,
    level: Seq<Option<usize>>,
    cur: int,
    target: int,
    upto: int,
) -> bool {
    forall|f: int, c: int|
        0 <= f < upto && 0 <= c < relays.len() ==> !#[trigger] candidate(
            pairs,
            level,
            cur,
            target,
            f,
            c,
        )
}

/// What the best candidate is once the neighbour `y` of `x` has been looked
/// at: `y` where `x` is the relay at `cur`, `y` is `target` hops away, and
/// there was no candidate before or `y` has the smaller fingerprint.
spec fn nearer_of(
    relays: Seq<Relay>,
    level: Seq<Option<usize>>,
    x: int,
    y: int,
    cur: int,
    target: int,
    best: Option<usize>,
) -> Option<usize> {
    if x == cur && level[y] == Some(target as usize) && (best is None || lex_less(
        relays[y].fingerprint@,
        relays[best.unwrap() as int].fingerprint@,
    )) {
        Some(y as usize)
    } else {
        best
    }
}

/// Looks at the neighbour `y` of `x` as a candidate for the next relay.
fn nearer(
    relays: &Vec<Relay>,
    level: &Vec<Option<usize>>,
    x: usize,
    y: usize,
    cur: usize,
    target: usize,
    best: Option<usize>,
) -> (out: Option<usize>)
    requires
        y < relays@.len(),
        y < level@.len(),
        best matches Some(b) ==> b < relays@.len(),
    ensures
        out == nearer_of(relays@, level@, x as int, y as int, cur as int, target as int, best),
{
    if x != cur {
        return best;
    }
    let there = match level[y] {
        Some(hops) => hops == target,
        None => false,
    };
    if !there {
        return best;
    }
    match best {
        Some(b) => if relays[y].fingerprint.precedes(&relays[b].fingerprint) {
            Some(y)
        } else {
            best
        },
        None => Some(y),
    }
}

/// Coming before another in the order of fingerprints is transitive.
proof fn lemma_lex_less_transitive(x: Seq<u8>, y: Seq<u8>, z: Seq<u8>)
    requires
        lex_less(x, y),
        lex_less(y, z),
    ensures
        lex_less(x, z),
{
    let i = choose|i: int|
        0 <= i < x.len() && i < y.len() && x[i] < y[i] && forall|j: int|
            0 <= j < i ==> x[j] == y[j];
    let k = choose|k: int|
        0 <= k < y.len() && k < z.len() && y[k] < z[k] && forall|j: int|
            0 <= j < k ==> y[j] == z[j];
    let m = if i <= k {
        i
    } else {
        k
    };
    assert(0 <= m < x.len() && m < z.len() && x[m] < z[m] && forall|j: int|
        0 <= j < m ==> x[j] == z[j]);
}

/// Looking at both ends of one more edge keeps the best candidate the best.
proof fn lemma_best_goes_on(
    relays: Seq<Relay>,
    pairs: Seq<(usize, usize)>,
    level: Seq<Option<usize>>,
    cur: int,
    target: int,
    e: int,
    before: Option<usize>,
    forth: Option<usize>,
    back: Option<usize>,
)
    requires
        0 <= e < pairs.len(),
        0 <= cur < relays.len(),
        level.len() == relays.len(),
        pairs_within(pairs, relays.len() as int),
        match before {
            Some(b) => b < relays.len() && level[b as int] == Some(target as usize) && linked(
                pairs,
                cur,
                b as int,
            ) && best_so_far(relays, pairs, level, cur, target, e, b as int),
            None => none_so_far(relays, pairs, level, cur, target, e),
        },
        forth == nearer_of(relays, level, pairs[e].0 as int, pairs[e].1 as int, cur, target, before),
        back == nearer_of(relays, level, pairs[e].1 as int, pairs[e].0 as int, cur, target, forth),
    ensures
        match back {
            Some(b) => b < relays.len() && level[b as int] == Some(target as usize) && linked(
                pairs,
                cur,
                b as int,
            ) && best_so_far(relays, pairs, level, cur, target, e + 1, b as int),
            None => none_so_far(relays, pairs, level, cur, target, e + 1),
        },
{
    let pa = pairs[e].0 as int;
    let pb = pairs[e].1 as int;
    assert(pairs[e].0 < relays.len() && pairs[e].1 < relays.len());
    match back {
        Some(b) => {
            let bf = relays[b as int].fingerprint;
            assert forall|f: int, c: int|
                0 <= f < e + 1 && 0 <= c < relays.len() && #[trigger] candidate(
                    pairs,
                    level,
                    cur,
                    target,
                    f,
                    c,
                ) implies !lex_less(relays[c].fingerprint@, bf@) by {
                let cf = relays[c].fingerprint;
                lemma_fingerprints_are_ordered(cf, bf);
                if f < e {
                    match before {
                        Some(old) => {
                            let of = relays[old as int].fingerprint;
                            assert(!lex_less(cf@, of@));
                            lemma_fingerprints_are_ordered(bf, of);
                            if lex_less(cf@, bf@) {
                                if bf != of {
                                    match forth {
                                        Some(mid) => {
                                            let mf = relays[mid as int].fingerprint;
                                            lemma_fingerprints_are_ordered(mf, of);
                                            lemma_fingerprints_are_ordered(bf, mf);
                                            if mf != of {
                                                if bf != mf {
                                                    lemma_lex_less_transitive(bf@, mf@, of@);
                                                }
                                            }
                                        },
                                        None => {},
                                    }
                                    lemma_lex_less_transitive(cf@, bf@, of@);
                                }
                            }
                        },
                        None => {
                            assert(!candidate(pairs, level, cur, target, f, c));
                        },
                    }
                } else {
                    // the candidate is one of the two ends of this edge
                    match forth {
                        Some(mid) => {
                            let mf = relays[mid as int].fingerprint;
                            lemma_fingerprints_are_ordered(cf, mf);
                            lemma_fingerprints_are_ordered(bf, mf);
                            if lex_less(cf@, bf@) && bf != mf {
                                lemma_lex_less_transitive(cf@, bf@, mf@);
                            }
                            match before {
                                Some(old) => {
                                    let of = relays[old as int].fingerprint;
                                    lemma_fingerprints_are_ordered(mf, of);
                                    lemma_fingerprints_are_ordered(cf, of);
                                },
                                None => {},
                            }
                        },
                        None => {},
                    }
                }
            }
            if back != before {
                assert(pairs[e].0 == pa && pairs[e].1 == pb);
            }
        },
        None => {
            assert forall|f: int, c: int|
                0 <= f < e + 1 && 0 <= c < relays.len() implies !#[trigger] candidate(
                pairs,
                level,
                cur,
                target,
                f,
                c,
            ) by {
                if f < e {
                    assert(!candidate(pairs, level, cur, target, f, c));
                }
            }
        },
    }
}

/// The rest of a walk from its place `p` on, walked backwards, is a walk.
proof fn lemma_back_walk(graph: RelayGraph, walk: Seq<Fingerprint>, p: int) -> (back: Seq<
    Fingerprint,
>)
    requires
        graph.wf(),
        graph.is_walk(walk),
        0 <= p < walk.len(),
    ensures
        graph.is_walk(back),
        back.len() == walk.len() - p,
        back[0] == walk[walk.len() - 1],
        back[back.len() - 1] == walk[p],
{
    let last = walk.len() - 1;
    let back = Seq::new((walk.len() - p) as nat, |x: int| walk[last - x]);
    lemma_walk_ends_at_vertex(graph, walk);
    assert forall|i: int| 0 <= i < back.len() - 1 implies graph.adjacent(
        #[trigger] back[i],
        back[i + 1],
    ) by {
        let a = walk[last - i - 1];
        let b = walk[last - i];
        assert(graph.adjacent(walk[last - i - 1], walk[(last - i - 1) + 1]));
        let e = choose|e: int|
            0 <= e < graph.edges().len() && (((#[trigger] graph.edges()[e]).a == a
                && graph.edges()[e].b == b) || (graph.edges()[e].a == b && graph.edges()[e].b
                == a));
        assert((graph.edges()[e].a == b && graph.edges()[e].b == a) || (graph.edges()[e].a == a
            && graph.edges()[e].b == b));
    }
    back
}

/// The relay that a walk to the root reaches after `p` hops has a level,
/// which is the number of hops that are left at most.
proof fn lemma_level_along_walk(
    graph: RelayGraph,
    pairs: Seq<(usize, usize)>,
    level: Seq<Option<usize>>,
    t: int,
    k: int,
    walk: Seq<Fingerprint>,
    p: int,
) -> (at: int)
    requires
        graph.wf(),
        pairs_ok(graph.relays(), graph.edges(), pairs),
        level.len() == graph.relays().len(),
        0 <= t < level.len(),
        level[t] == Some(0usize),
        closed_below(pairs, level, pairs.len() as int, k),
        graph.is_walk(walk),
        0 <= p < walk.len(),
        walk.len() - 1 - p <= k,
        walk[walk.len() - 1] == graph.relays()[t].fingerprint,
    ensures
        0 <= at < level.len(),
        graph.relays()[at].fingerprint == walk[p],
        level[at] is Some,
        level[at].unwrap() <= walk.len() - 1 - p,
{
    let back = lemma_back_walk(graph, walk, p);
    lemma_walk_levels(graph, pairs, level, t, k, back)
}

/// Two relays that an edge of the graph joins are joined by an edge of the
/// places.
proof fn lemma_adjacent_is_linked(
    graph: RelayGraph,
    pairs: Seq<(usize, usize)>,
    u: int,
    v: int,
) -> (e: int)
    requires
        graph.wf(),
        pairs_ok(graph.relays(), graph.edges(), pairs),
        0 <= u < graph.relays().len(),
        0 <= v < graph.relays().len(),
        graph.adjacent(graph.relays()[u].fingerprint, graph.relays()[v].fingerprint),
    ensures
        0 <= e < pairs.len(),
        (pairs[e].0 == u && pairs[e].1 == v) || (pairs[e].1 == u && pairs[e].0 == v),
{
    let relays = graph.relays();
    let a = relays[u].fingerprint;
    let b = relays[v].fingerprint;
    let e = choose|e: int|
        0 <= e < graph.edges().len() && (((#[trigger] graph.edges()[e]).a == a
            && graph.edges()[e].b == b) || (graph.edges()[e].a == b && graph.edges()[e].b == a));
    let pa = pairs[e].0 as int;
    let pb = pairs[e].1 as int;
    assert(relays[pa].fingerprint == graph.edges()[e].a);
    assert(relays[pb].fingerprint == graph.edges()[e].b);
    if graph.edges()[e].a == a && graph.edges()[e].b == b {
        lemma_same_place(relays, pa, u);
        lemma_same_place(relays, pb, v);
    } else {
        lemma_same_place(relays, pb, u);
        lemma_same_place(relays, pa, v);
    }
    e
}

/// A neighbour of the relay at place `cur` that is no further from the root
/// than one hop less is a candidate: it is exactly one hop nearer.
proof fn lemma_neighbour_is_candidate(
    graph: RelayGraph,
    pairs: Seq<(usize, usize)>,
    level: Seq<Option<usize>>,
    k: int,
    target: int,
    cur: int,
    at: int,
) -> (e: int)
    requires
        graph.wf(),
        pairs_ok(graph.relays(), graph.edges(), pairs),
        level.len() == graph.relays().len(),
        closed_below(pairs, level, pairs.len() as int, k),
        0 <= target < k <= usize::MAX,
        0 <= cur < level.len(),
        0 <= at < level.len(),
        level[cur] == Some((target + 1) as usize),
        level[at] is Some,
        level[at].unwrap() <= target,
        graph.adjacent(graph.relays()[cur].fingerprint, graph.relays()[at].fingerprint),
    ensures
        0 <= e < pairs.len(),
        candidate(pairs, level, cur, target, e, at),
{
    let e = lemma_adjacent_is_linked(graph, pairs, cur, at);
    assert(edge_ok(pairs, level, e, k));
    if pairs[e].0 == cur && pairs[e].1 == at {
        assert(step_ok(level, pairs[e].1 as int, pairs[e].0 as int, k));
    } else {
        assert(step_ok(level, pairs[e].0 as int, pairs[e].1 as int, k));
    }
    assert(step_ok(level, at, cur, k));
    let near = level[at].unwrap();
    assert(near < k);
    assert(level[cur].unwrap() <= near + 1);
    assert(near == target);
    assert(level[at] == Some(near));
    e
}

/// Where the way so far comes before a walk or goes along it, it still does
/// so once a relay has been added whose fingerprint is not greater than that
/// of the walk's next relay.
proof fn lemma_stays_ahead(way: Seq<Fingerprint>, step: Fingerprint, walk: Seq<Fingerprint>)
    requires
        way.len() < walk.len(),
        ahead_or_same(way, walk),
        (forall|j: int| 0 <= j < way.len() ==> way[j] == walk[j]) ==> !lex_less(
            walk[way.len() as int]@,
            step@,
        ),
    ensures
        ahead_or_same(way.push(step), walk),
{
    let longer = way.push(step);
    let p = way.len() as int;
    if exists|m: int|
        0 <= m < way.len() && lex_less(way[m]@, walk[m]@) && forall|j: int|
            0 <= j < m ==> way[j] == walk[j] {
        let m = choose|m: int|
            0 <= m < way.len() && lex_less(way[m]@, walk[m]@) && forall|j: int|
                0 <= j < m ==> way[j] == walk[j];
        assert(longer[m] == way[m]);
        assert forall|j: int| 0 <= j < m implies longer[j] == walk[j] by {
            assert(longer[j] == way[j]);
        }
    } else {
        lemma_fingerprints_are_ordered(walk[p], step);
        if walk[p] == step {
            assert forall|j: int| 0 <= j < longer.len() implies longer[j] == walk[j] by {
                if j < way.len() {
                    assert(longer[j] == way[j]);
                }
            }
        } else {
            assert(lex_less(longer[p]@, walk[p]@));
            assert forall|j: int| 0 <= j < p implies longer[j] == walk[j] by {
                assert(longer[j] == way[j]);
            }
        }
    }
}

/// Along a walk the levels grow by one at most: the relay that a walk of `h`
/// hops from the root reaches has a level, and it is `h` at most, as long as
/// the levels are closed up to `d` and `h` is `d` at most.
proof fn lemma_walk_levels(
    graph: RelayGraph,
    pairs: Seq<(usize, usize)>,
    level: Seq<Option<usize>>,
    s: int,
    d: int,
    walk: Seq<Fingerprint>,
) -> (at: int)
    requires
        graph.wf(),
        pairs_ok(graph.relays(), graph.edges(), pairs),
        level.len() == graph.relays().len(),
        0 <= s < level.len(),
        level[s] == Some(0usize),
        closed_below(pairs, level, pairs.len() as int, d),
        graph.is_walk(walk),
        walk[0] == graph.relays()[s].fingerprint,
        walk.len() - 1 <= d,
    ensures
        0 <= at < level.len(),
        graph.relays()[at].fingerprint == walk[walk.len() - 1],
        level[at] is Some,
        level[at].unwrap() <= walk.len() - 1,
    decreases walk.len(),
{
    if walk.len() == 1 {
        s
    } else {
        let shorter = walk.drop_last();
        assert forall|i: int| 0 <= i < shorter.len() - 1 implies graph.adjacent(
            #[trigger] shorter[i],
            shorter[i + 1],
        ) by {
            assert(graph.adjacent(walk[i], walk[i + 1]));
        }
        let u = lemma_walk_levels(graph, pairs, level, s, d, shorter);
        let h = walk.len() - 1;
        assert(graph.adjacent(walk[h - 1], walk[h]));
        let e = choose|e: int|
            0 <= e < graph.edges().len() && (((#[trigger] graph.edges()[e]).a == walk[h - 1]
                && graph.edges()[e].b == walk[h]) || (graph.edges()[e].a == walk[h]
                && graph.edges()[e].b == walk[h - 1]));
        let pa = pairs[e].0 as int;
        let pb = pairs[e].1 as int;
        assert(edge_ok(pairs, level, e, d));
        if graph.edges()[e].a == walk[h - 1] && graph.edges()[e].b == walk[h] {
            lemma_same_place(graph.relays(), u, pa);
            pb
        } else {
            lemma_same_place(graph.relays(), u, pb);
            pa
        }
    }
}

proof fn lemma_same_place(relays: Seq<Relay>, i: int, j: int)
    requires
        0 <= i < relays.len(),
        0 <= j < relays.len(),
        relays[i].fingerprint == relays[j].fingerprint,
        forall|a: int, b: int|
            0 <= a < b < relays.len() ==> (#[trigger] relays[a]).fingerprint != (
            #[trigger] relays[b]).fingerprint,
    ensures
        i == j,
{
    if i < j {
        assert(relays[i].fingerprint != relays[j].fingerprint);
    } else if j < i {
        assert(relays[j].fingerprint != relays[i].fingerprint);
    }
}

/// The last relay of a walk is a relay of the graph.
proof fn lemma_walk_ends_at_vertex(graph: RelayGraph, walk: Seq<Fingerprint>)
    requires
        graph.wf(),
        graph.is_walk(walk),
    ensures
        is_vertex(graph.relays(), walk[walk.len() - 1]),
{
    if walk.len() > 1 {
        let h = walk.len() - 1;
        assert(graph.adjacent(walk[h - 1], walk[h]));
        let e = choose|e: int|
            0 <= e < graph.edges().len() && (((#[trigger] graph.edges()[e]).a == walk[h - 1]
                && graph.edges()[e].b == walk[h]) || (graph.edges()[e].a == walk[h]
                && graph.edges()[e].b == walk[h - 1]));
        lemma_edges_are_signed(graph, e);
    }
}

} // verus!
