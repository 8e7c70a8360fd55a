use vstd::prelude::*;
use vstd::seq_lib::seq_to_set_is_finite;
use vstd::set_lib::{lemma_int_range, lemma_len_subset, set_int_range};
use crate::addr::{lex_less, Fingerprint, IdentityPublic};
use crate::haven::{locator_valid, HavenLocator};

verus! {

/// Seconds that a stored locator stays alive: one hour.
pub const LOCATOR_TTL_SECS: u64 = 3600;

/// Seconds between two insertions of one locator: fifty minutes.
pub const LOCATOR_REFRESH_SECS: u64 = 3000;

/// The XOR distance between two fingerprints, byte by byte.
pub open spec fn xor_distance(a: Fingerprint, b: Fingerprint) -> Seq<u8> {
    Seq::new(20, |i: int| a@[i] ^ b@[i])
}

/// Whether `a` is closer to `key` than `b` is, by XOR distance.
pub open spec fn closer(key: Fingerprint, a: Fingerprint, b: Fingerprint) -> bool {
    lex_less(xor_distance(key, a), xor_distance(key, b))
}

/// Whether `a` is closer to `key` than `b` is.
pub fn is_closer(key: &Fingerprint, a: &Fingerprint, b: &Fingerprint) -> (yes: bool)
    ensures
        yes == closer(*key, *a, *b),
{
    let ghost da = xor_distance(*key, *a);
    let ghost db = xor_distance(*key, *b);
    let mut i: usize = 0;
    while i < 20
        invariant
            i <= 20,
            da == xor_distance(*key, *a),
            db == xor_distance(*key, *b),
            forall|j: int| 0 <= j < i ==> da[j] == db[j],
        decreases 20 - i,
    {
        let x = key.bytes[i] ^ a.bytes[i];
        let y = key.bytes[i] ^ b.bytes[i];
        assert(x == da[i as int] && y == db[i as int]);
        if x < y {
            return true;
        }
        if x > y {
            assert forall|k: int| 0 <= k < 20 && da[k] < db[k] implies !(forall|j: int|
                0 <= j < k ==> da[j] == db[j]) by {
                if k > i {
                    assert(da[i as int] != db[i as int]);
                }
            }
            return false;
        }
        i += 1;
    }
    false
}

/// No fingerprint is closer to a key than itself.
pub proof fn lemma_not_closer_than_itself(key: Fingerprint, a: Fingerprint)
    ensures
        !closer(key, a, a),
{
}

/// Being closer to a key is transitive.
pub proof fn lemma_closer_transitive(key: Fingerprint, a: Fingerprint, b: Fingerprint, c: Fingerprint)
    requires
        closer(key, a, b),
        closer(key, b, c),
    ensures
        closer(key, a, c),
{
    let x = xor_distance(key, a);
    let y = xor_distance(key, b);
    let z = xor_distance(key, c);
    let i = choose|i: int|
        0 <= i < x.len() && i < y.len() && x[i] < y[i] && forall|j: int|
            0 <= j < i ==> x[j] == y[j];
    let k = choose|k: int|
        0 <= k < y.len() && k < z.len() && y[k] < z[k] && forall|j: int|
            0 <= j < k ==> y[j] == z[j];
    let m = if i <= k {
        i
    } else {
        k
    };
    assert(0 <= m < x.len() && m < z.len() && x[m] < z[m] && forall|j: int|
        0 <= j < m ==> x[j] == z[j]);
}

proof fn lemma_closer_transitive_all(
    key: Fingerprint,
    relays: Seq<Fingerprint>,
    taken: Seq<bool>,
    r: int,
    b: int,
)
    requires
        0 <= b < r < relays.len(),
        taken.len() == relays.len(),
        closer(key, relays[r], relays[b]),
        forall|q: int|
            0 <= q < r && !taken[q] ==> !closer(key, #[trigger] relays[q], relays[b]),
    ensures
        forall|q: int|
            0 <= q < r + 1 && !taken[q] ==> !closer(key, #[trigger] relays[q], relays[r]),
{
    assert forall|q: int| 0 <= q < r + 1 && !taken[q] implies !closer(
        key,
        #[trigger] relays[q],
        relays[r],
    ) by {
        if q < r {
            if closer(key, relays[q], relays[r]) {
                lemma_closer_transitive(key, relays[q], relays[r], relays[b]);
            }
        }
    }
}

proof fn lemma_some_place_is_free(places: Seq<int>, n: int)
    requires
        places.len() < n,
        forall|i: int, j: int| 0 <= i < j < places.len() ==> places[i] != places[j],
    ensures
        exists|q: int| 0 <= q < n && !places.contains(q),
{
    if forall|q: int| 0 <= q < n ==> places.contains(q) {
        assert(places.no_duplicates());
        places.unique_seq_to_set();
        seq_to_set_is_finite(places);
        lemma_int_range(0, n);
        assert(set_int_range(0, n).subset_of(places.to_set())) by {
            assert forall|q: int| set_int_range(0, n).contains(q) implies places.to_set().contains(
                q,
            ) by {
                assert(places.contains(q));
            }
        }
        lemma_len_subset(set_int_range(0, n), places.to_set());
    }
}

/// `out` holds the relays of `relays` that are closest to `key`, `k` of them
/// or all where there are fewer, the closest first: each comes from its own
/// place in `relays`, and no relay that was left out is closer than one that
/// was taken.
pub open spec fn is_closest(
    key: Fingerprint,
    relays: Seq<Fingerprint>,
    k: nat,
    out: Seq<Fingerprint>,
    places: Seq<int>,
) -> bool {
    &&& out.len() == if k <= relays.len() {
        k
    } else {
        relays.len()
    }
    &&& places.len() == out.len()
    &&& forall|i: int|
        0 <= i < out.len() ==> 0 <= #[trigger] places[i] < relays.len() && relays[places[i]]
            == out[i]
    &&& forall|i: int, j: int| 0 <= i < j < out.len() ==> places[i] != places[j]
    &&& forall|i: int, j: int| 0 <= i < j < out.len() ==> !closer(key, out[j], out[i])
    &&& forall|i: int, r: int|
        0 <= i < out.len() && 0 <= r < relays.len() && !places.contains(r) ==> !closer(
            key,
            #[trigger] relays[r],
            #[trigger] out[i],
        )
}

/// The `k` relays closest to `key` by XOR distance, the closest first. Of
/// relays at the same distance the one that stands first in `relays` is
/// taken first.
pub fn closest_relays(key: &Fingerprint, relays: &Vec<Fingerprint>, k: usize) -> (out: Vec<
    Fingerprint,
>)
    ensures
        exists|places: Seq<int>| is_closest(*key, relays@, k as nat, out@, places),
{
    let n = relays.len();
    let want = if k <= n {
        k
    } else {
        n
    };
    let mut taken: Vec<bool> = Vec::new();
    let mut t: usize = 0;
    while t < n
        invariant
            t <= n,
            taken@.len() == t,
            forall|j: int| 0 <= j < t ==> !taken@[j],
        decreases n - t,
    {
        taken.push(false);
        t += 1;
    }
    let mut out: Vec<Fingerprint> = Vec::new();
    let ghost mut places: Seq<int> = Seq::empty();
    while out.len() < want
        invariant
            n == relays@.len(),
            want <= n,
            taken@.len() == n,
            out@.len() <= want,
            places.len() == out@.len(),
            forall|i: int|
                0 <= i < out@.len() ==> 0 <= #[trigger] places[i] < n && relays@[places[i]]
                    == out@[i],
            forall|i: int, j: int| 0 <= i < j < out@.len() ==> places[i] != places[j],
            forall|r: int| 0 <= r < n ==> (#[trigger] taken@[r] <==> places.contains(r)),
            forall|i: int, j: int| 0 <= i < j < out@.len() ==> !closer(*key, out@[j], out@[i]),
            forall|i: int, r: int|
                0 <= i < out@.len() && 0 <= r < n && !places.contains(r) ==> !closer(
                    *key,
                    #[trigger] relays@[r],
                    #[trigger] out@[i],
                ),
        decreases want - out@.len(),
    {
        let mut best: Option<usize> = None;
        let mut r: usize = 0;
        while r < n
            invariant
                r <= n,
                n == relays@.len(),
                taken@.len() == n,
                match best {
                    Some(b) => {
                        &&& b < r
                        &&& !taken@[b as int]
                        &&& forall|q: int|
                            0 <= q < r && !taken@[q] ==> !closer(
                                *key,
                                #[trigger] relays@[q],
                                relays@[b as int],
                            )
                    },
                    None => forall|q: int| 0 <= q < r ==> #[trigger] taken@[q],
                },
            decreases n - r,
        {
            if !taken[r] {
                match best {
                    Some(b) => {
                        if is_closer(key, &relays[r], &relays[b]) {
                            proof {
                                lemma_closer_transitive_all(*key, relays@, taken@, r as int, b as int);
                            }
                            best = Some(r);
                        }
                    },
                    None => {
                        proof {
                            lemma_not_closer_than_itself(*key, relays@[r as int]);
                        }
                        best = Some(r);
                    },
                }
            }
            r += 1;
        }
        match best {
            Some(b) => {
                let ghost old_places = places;
                let ghost old_out = out@;
                out.push(relays[b]);
                taken.set(b, true);
                proof {
                    places = places.push(b as int);
                    assert(places[places.len() - 1] == b);
                    assert forall|q: int| 0 <= q < n implies (#[trigger] taken@[q]
                        <==> places.contains(q)) by {
                        if old_places.contains(q) {
                            let w = choose|w: int| 0 <= w < old_places.len() && old_places[w] == q;
                            assert(places[w] == q);
                        }
                        if places.contains(q) && q != b {
                            let w = choose|w: int| 0 <= w < places.len() && places[w] == q;
                            assert(old_places[w] == q);
                        }
                    }
                    assert forall|i: int, j: int| 0 <= i < j < out@.len() implies places[i]
                        != places[j] by {
                        if j == old_out.len() {
                            assert(old_places[i] == places[i]);
                            assert(old_places.contains(places[i]));
                        }
                    }
                    assert forall|i: int, j: int| 0 <= i < j < out@.len() implies !closer(
                        *key,
                        out@[j],
                        out@[i],
                    ) by {
                        if j == old_out.len() {
                            assert(!old_places.contains(b as int));
                            assert(out@[i] == old_out[i]);
                            assert(!closer(*key, relays@[b as int], old_out[i]));
                        }
                    }
                    assert forall|i: int, q: int|
                        0 <= i < out@.len() && 0 <= q < n && !places.contains(q) implies !closer(
                        *key,
                        #[trigger] relays@[q],
                        #[trigger] out@[i],
                    ) by {
                        assert(!old_places.contains(q)) by {
                            if old_places.contains(q) {
                                let w = choose|w: int|
                                    0 <= w < old_places.len() && old_places[w] == q;
                                assert(places[w] == q);
                            }
                        }
                        if i < old_out.len() {
                            assert(out@[i] == old_out[i]);
                        }
                    }
                }
            },
            None => {
                // fewer than `n` places are taken, so one is free: `None` cannot be
                proof {
                    lemma_some_place_is_free(places, n as int);
                    let q = choose|q: int| 0 <= q < n && !places.contains(q);
                    assert(taken@[q]);
                }
                return out;
            },
        }
    }
    proof {
        assert(is_closest(*key, relays@, k as nat, out@, places));
    }
    out
}

/// One answer to a lookup: the locator and the key that it claims to be
/// signed with, or nothing where the relay knew no locator.
#[derive(Debug)]
pub struct LookupAnswer {
    pub locator: HavenLocator,
    pub key: IdentityPublic,
}

/// Whether an answer serves a lookup of `wanted`: it holds a locator of that
/// identity, and the locator is valid under the key that comes with it.
pub open spec fn answers(answer: Option<LookupAnswer>, wanted: Fingerprint) -> bool {
    answer matches Some(a) && a.locator.identity == wanted && locator_valid(a.locator, a.key)
}

/// The place of the first answer that serves the lookup of `wanted`: the
/// result of a lookup is the first valid signed response, and a lookup
/// without one is a miss.
pub fn first_valid_answer(responses: &Vec<Option<LookupAnswer>>, wanted: &Fingerprint) -> (at: Option<
    usize,
>)
    ensures
        match at {
            Some(i) => {
                &&& i < responses@.len()
                &&& answers(responses@[i as int], *wanted)
                &&& forall|j: int| 0 <= j < i ==> !answers(#[trigger] responses@[j], *wanted)
            },
            None => forall|j: int|
                0 <= j < responses@.len() ==> !answers(#[trigger] responses@[j], *wanted),
        },
{
    let mut i: usize = 0;
    while i < responses.len()
        invariant
            i <= responses@.len(),
            forall|j: int| 0 <= j < i ==> !answers(#[trigger] responses@[j], *wanted),
        decreases responses@.len() - i,
    {
        match &responses[i] {
            Some(answer) => {
                if answer.locator.identity == *wanted && answer.locator.verify(&answer.key) {
                    return Some(i);
                }
            },
            None => {},
        }
        i += 1;
    }
    None
}

/// A locator as a relay of the DHT keeps it.
#[derive(Debug)]
pub struct StoredLocator {
    pub locator: HavenLocator,
    pub key: IdentityPublic,
    pub stored_at: u64,
}

/// Whether a record that was stored at `stored_at` is still alive at `now`:
/// it is not older than the time to live.
pub open spec fn is_alive(stored_at: u64, now: u64) -> bool {
    now - stored_at <= LOCATOR_TTL_SECS
}

/// The part of the DHT that one relay keeps: valid locators by identity,
/// each with the time at which it was stored.
pub struct DhtStore {
    records: Vec<StoredLocator>,
}

impl DhtStore {
    /// The records, in the order in which their identities first came.
    pub closed spec fn records(&self) -> Seq<StoredLocator> {
        self.records@
    }

    /// Every stored locator is valid, and no identity has two records.
    pub open spec fn wf(&self) -> bool {
        &&& forall|i: int|
            0 <= i < self.records().len() ==> locator_valid(
                (#[trigger] self.records()[i]).locator,
                self.records()[i].key,
            )
        &&& forall|i: int, j: int|
            0 <= i < j < self.records().len() ==> (#[trigger] self.records()[i]).locator.identity
                != (#[trigger] self.records()[j]).locator.identity
    }

    /// Whether a record of `identity` is kept.
    pub open spec fn knows(&self, identity: Fingerprint) -> bool {
        exists|i: int|
            0 <= i < self.records().len() && (#[trigger] self.records()[i]).locator.identity
                == identity
    }

    /// A store without records.
    pub fn new() -> (store: DhtStore)
        ensures
            store.wf(),
            store.records() == Seq::<StoredLocator>::empty(),
    {
        DhtStore { records: Vec::new() }
    }

    /// How many records are kept.
    pub fn len(&self) -> (n: usize)
        ensures
            n == self.records().len(),
    {
        self.records.len()
    }

    fn position(&self, identity: &Fingerprint) -> (at: Option<usize>)
        ensures
            match at {
                Some(i) => i < self.records().len() && self.records()[i as int].locator.identity
                    == *identity,
                None => !self.knows(*identity),
            },
    {
        let mut i: usize = 0;
        while i < self.records.len()
            invariant
                i <= self.records@.len(),
                forall|j: int|
                    0 <= j < i ==> (#[trigger] self.records@[j]).locator.identity != *identity,
            decreases self.records@.len() - i,
        {
            if self.records[i].locator.identity == *identity {
                return Some(i);
            }
            i += 1;
        }
        None
    }

    /// Stores a locator under its identity at the time `now`, in place of
    /// what was stored for that identity. A locator that is not valid under
    /// `key` is refused and the store unchanged. Says whether it was stored.
    pub fn insert(&mut self, locator: HavenLocator, key: IdentityPublic, now: u64) -> (stored: bool)
        requires
            old(self).wf(),
        ensures
            final(self).wf(),
            stored == locator_valid(locator, key),
            if !stored {
                final(self).records() == old(self).records()
            } else if old(self).knows(locator.identity) {
                exists|i: int|
                    0 <= i < old(self).records().len() && (#[trigger] old(self).records()[i]).locator.identity == locator.identity && final(self).records()
                        == old(self).records().update(
                        i,
                        StoredLocator { locator, key, stored_at: now },
                    )
            } else {
                final(self).records() == old(self).records().push(
                    StoredLocator { locator, key, stored_at: now },
                )
            },
    {
        if !locator.verify(&key) {
            return false;
        }
        match self.position(&locator.identity) {
            Some(i) => {
                self.records[i] = StoredLocator { locator, key, stored_at: now };
                assert(old(self).records()[i as int].locator.identity == locator.identity);
                assert forall|a: int, b: int| 0 <= a < b < self.records().len() implies (
                #[trigger] self.records()[a]).locator.identity != (
                #[trigger] self.records()[b]).locator.identity by {
                    assert(old(self).records()[a].locator.identity != old(self).records()[b].locator.identity);
                }
            },
            None => {
                self.records.push(StoredLocator { locator, key, stored_at: now });
            },
        }
        true
    }

    /// The locator stored for `identity`, if there is one and it is still
    /// alive at `now`.
    pub fn get(&self, identity: &Fingerprint, now: u64) -> (found: Option<&HavenLocator>)
        requires
            self.wf(),
        ensures
            match found {
                Some(locator) => exists|i: int|
                    0 <= i < self.records().len() && (#[trigger] self.records()[i]).locator
                        == *locator && locator.identity == *identity && is_alive(
                        self.records()[i].stored_at,
                        now,
                    ) && locator_valid(*locator, self.records()[i].key),
                None => forall|i: int|
                    0 <= i < self.records().len() && (#[trigger] self.records()[i]).locator.identity
                        == *identity ==> !is_alive(self.records()[i].stored_at, now),
            },
    {
        match self.position(identity) {
            Some(i) => {
                let record = &self.records[i];
                if now <= record.stored_at || now - record.stored_at <= LOCATOR_TTL_SECS {
                    assert(self.records()[i as int].locator == record.locator);
                    Some(&record.locator)
                } else {
                    assert forall|k: int|
                        0 <= k < self.records().len() && (#[trigger] self.records()[k]).locator.identity
                            == *identity implies !is_alive(self.records()[k].stored_at, now) by {
                        if k < i {
                            assert(self.records()[k].locator.identity != self.records()[i as int].locator.identity);
                        } else if k > i {
                            assert(self.records()[i as int].locator.identity != self.records()[k].locator.identity);
                        }
                    }
                    None
                }
            },
            None => None,
        }
    }

    /// Throws out the records that are older than the time to live at `now`.
    /// The others stay, in their order.
    pub fn evict(&mut self, now: u64)
        requires
            old(self).wf(),
        ensures
            final(self).wf(),
            final(self).records() == old(self).records().filter(
                |record: StoredLocator| is_alive(record.stored_at, now),
            ),
    {
        let ghost alive = |record: StoredLocator| is_alive(record.stored_at, now);
        let mut i: usize = 0;
        while i < self.records.len()
            invariant
                i <= self.records@.len(),
                self.wf(),
                alive == |record: StoredLocator| is_alive(record.stored_at, now),
                self.records@.subrange(0, i as int) == self.records@.subrange(0, i as int).filter(
                    alive,
                ),
                self.records@.filter(alive) == old(self).records().filter(alive),
            decreases self.records@.len() - i,
        {
            let stored_at = self.records[i].stored_at;
            let ghost before = self.records@;
            proof {
                assert(before == self.records());
                assert forall|k: int| 0 <= k < before.len() implies locator_valid(
                    (#[trigger] before[k]).locator,
                    before[k].key,
                ) by {
                    assert(locator_valid(self.records()[k].locator, self.records()[k].key));
                }
                assert forall|a: int, b: int| 0 <= a < b < before.len() implies (
                #[trigger] before[a]).locator.identity != (#[trigger] before[b]).locator.identity by {
                    assert(self.records()[a].locator.identity != self.records()[b].locator.identity);
                }
            }
            if now <= stored_at || now - stored_at <= LOCATOR_TTL_SECS {
                proof {
                    lemma_filter_keep(before.subrange(0, i as int), before[i as int], alive);
                    assert(before.subrange(0, i as int + 1) =~= before.subrange(0, i as int).push(
                        before[i as int],
                    ));
                }
                i += 1;
            } else {
                self.records.remove(i);
                proof {
                    let after = self.records@;
                    assert(after.subrange(0, i as int) =~= before.subrange(0, i as int));
                    lemma_filter_remove(before, i as int, alive);
                    assert forall|a: int, b: int| 0 <= a < b < after.len() implies (
                    #[trigger] after[a]).locator.identity != (#[trigger] after[b]).locator.identity by {
                        let a0 = if a < i { a } else { a + 1 };
                        let b0 = if b < i { b } else { b + 1 };
                        assert(before[a0].locator.identity != before[b0].locator.identity);
                    }
                    assert forall|k: int| 0 <= k < after.len() implies locator_valid(
                        (#[trigger] after[k]).locator,
                        after[k].key,
                    ) by {
                        let k0 = if k < i { k } else { k + 1 };
                        assert(locator_valid(before[k0].locator, before[k0].key));
                    }
                }
            }
        }
        proof {
            assert(self.records@.subrange(0, self.records@.len() as int) =~= self.records@);
        }
    }
}

proof fn lemma_filter_keep(s: Seq<StoredLocator>, x: StoredLocator, pred: spec_fn(StoredLocator) -> bool)
    requires
        s == s.filter(pred),
        pred(x),
    ensures
        s.push(x) == s.push(x).filter(pred),
{
    reveal(Seq::filter);
    assert(s.push(x).drop_last() =~= s);
}

proof fn lemma_filter_remove(s: Seq<StoredLocator>, i: int, pred: spec_fn(StoredLocator) -> bool)
    requires
        0 <= i < s.len(),
        !pred(s[i]),
    ensures
        s.remove(i).filter(pred) == s.filter(pred),
    decreases s.len(),
{
    reveal(Seq::filter);
    if i == s.len() - 1 {
        assert(s.remove(i) =~= s.drop_last());
    } else {
        lemma_filter_remove(s.drop_last(), i, pred);
        assert(s.remove(i).drop_last() =~= s.drop_last().remove(i));
        assert(s.remove(i).last() == s.last());
    }
}

} // verus!
