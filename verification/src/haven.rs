use vstd::prelude::*;
use crate::socket::Dock;
use crate::addr::{
    append_bytes, fingerprint_of_key, lemma_fingerprint_by_bytes, public_of_identity,
    signature_accepted, signature_of, Fingerprint, IdentityPublic, IdentitySecret,
};

verus! {

/// The dock on which a rendezvous relay accepts haven traffic to forward.
pub const HAVEN_FORWARD_DOCK: Dock = 2;

/// What the DHT stores under a haven's identity fingerprint: where to reach it.
#[derive(Clone, Debug)]
pub struct HavenLocator {
    pub identity: Fingerprint,
    pub onion_pk: [u8; 32],
    pub rendezvous_point: Fingerprint,
    pub signature: Vec<u8>,
}

/// The bytes that a haven signs in its locator: its fingerprint, its onion
/// key and the fingerprint of its rendezvous relay, in this order.
pub open spec fn locator_claim(locator: HavenLocator) -> Seq<u8> {
    locator.identity@ + locator.onion_pk@ + locator.rendezvous_point@
}

/// Whether a locator is what the holder of `key` published: the locator
/// stands under the fingerprint of the key, and its signature verifies.
pub open spec fn locator_valid(locator: HavenLocator, key: IdentityPublic) -> bool {
    &&& locator.identity@ == fingerprint_of_key(key@)
    &&& signature_accepted(key@, locator_claim(locator), locator.signature@)
}

impl HavenLocator {
    /// The locator of the haven of `identity_sk`, which is reached through
    /// `rendezvous_point` and reads what is sealed for `onion_pk`, signed
    /// with `identity_sk`.
    pub fn new(identity_sk: &IdentitySecret, onion_pk: [u8; 32], rendezvous_point: Fingerprint) -> (locator:
        HavenLocator)
        ensures
            locator.identity@ == fingerprint_of_key(public_of_identity(identity_sk@)),
            locator.onion_pk == onion_pk,
            locator.rendezvous_point == rendezvous_point,
            locator.signature@ == signature_of(identity_sk@, locator_claim(locator)),
            forall|key: IdentityPublic|
                key@ == public_of_identity(identity_sk@) ==> #[trigger] locator_valid(locator, key),
    {
        let key = identity_sk.public();
        let unsigned = HavenLocator {
            identity: key.fingerprint(),
            onion_pk,
            rendezvous_point,
            signature: Vec::new(),
        };
        let claim = unsigned.to_sign();
        let signature = identity_sk.sign(claim.as_slice());
        let locator = HavenLocator {
            identity: unsigned.identity,
            onion_pk,
            rendezvous_point,
            signature,
        };
        assert(locator_claim(locator) == locator_claim(unsigned));
        locator
    }

    /// The bytes that the signature of the locator covers.
    pub fn to_sign(&self) -> (claim: Vec<u8>)
        ensures
            claim@ == locator_claim(*self),
    {
        let mut claim: Vec<u8> = Vec::new();
        append_bytes(&mut claim, self.identity.bytes.as_slice());
        append_bytes(&mut claim, self.onion_pk.as_slice());
        append_bytes(&mut claim, self.rendezvous_point.bytes.as_slice());
        assert(claim@ =~= locator_claim(*self));
        claim
    }

    /// Whether the locator is what the holder of `key` published.
    pub fn verify(&self, key: &IdentityPublic) -> (valid: bool)
        ensures
            valid == locator_valid(*self, *key),
    {
        let fingerprint = key.fingerprint();
        proof {
            lemma_fingerprint_by_bytes(fingerprint, self.identity);
        }
        if fingerprint == self.identity {
            let claim = self.to_sign();
            key.verify(claim.as_slice(), self.signature.as_slice())
        } else {
            false
        }
    }
}

/// What a haven server asks of its rendezvous relay: to forward to it what
/// is addressed to `identity`, sealed for `onion_pk`.
#[derive(Clone, Copy, Debug)]
pub struct RegisterHavenReq {
    pub identity: Fingerprint,
    pub onion_pk: [u8; 32],
}

/// The registrations that a sequence of requests leaves behind, the later
/// request winning over an earlier one of the same identity.
pub open spec fn registrations(requests: Seq<RegisterHavenReq>) -> Map<Fingerprint, [u8; 32]>
    decreases requests.len(),
{
    if requests.len() == 0 {
        Map::empty()
    } else {
        registrations(requests.drop_last()).insert(
            requests.last().identity,
            requests.last().onion_pk,
        )
    }
}

/// No two entries are of the same identity.
pub open spec fn distinct_identities(entries: Seq<RegisterHavenReq>) -> bool {
    forall|i: int, j: int|
        0 <= i < j < entries.len() ==> (#[trigger] entries[i]).identity != (
        #[trigger] entries[j]).identity
}

proof fn lemma_registrations_dom(entries: Seq<RegisterHavenReq>, identity: Fingerprint)
    ensures
        registrations(entries).dom().contains(identity) <==> exists|i: int|
            0 <= i < entries.len() && (#[trigger] entries[i]).identity == identity,
    decreases entries.len(),
{
    if entries.len() > 0 {
        let rest = entries.drop_last();
        lemma_registrations_dom(rest, identity);
        if registrations(entries).dom().contains(identity) {
            if entries.last().identity == identity {
                assert(entries[entries.len() - 1].identity == identity);
            } else {
                let i = choose|i: int| 0 <= i < rest.len() && (#[trigger] rest[i]).identity == identity;
                assert(entries[i].identity == identity);
            }
        }
        if exists|i: int| 0 <= i < entries.len() && (#[trigger] entries[i]).identity == identity {
            let i = choose|i: int|
                0 <= i < entries.len() && (#[trigger] entries[i]).identity == identity;
            if i < entries.len() - 1 {
                assert(rest[i].identity == identity);
            }
        }
    }
}

proof fn lemma_registrations_at(entries: Seq<RegisterHavenReq>, i: int)
    requires
        distinct_identities(entries),
        0 <= i < entries.len(),
    ensures
        registrations(entries).dom().contains(entries[i].identity),
        registrations(entries)[entries[i].identity] == entries[i].onion_pk,
    decreases entries.len(),
{
    if i < entries.len() - 1 {
        let rest = entries.drop_last();
        assert forall|a: int, b: int| 0 <= a < b < rest.len() implies (#[trigger] rest[a]).identity
            != (#[trigger] rest[b]).identity by {
            assert(entries[a].identity != entries[b].identity);
        }
        lemma_registrations_at(rest, i);
        assert(entries[i].identity != entries[entries.len() - 1].identity);
    }
}

proof fn lemma_registrations_update(entries: Seq<RegisterHavenReq>, i: int, req: RegisterHavenReq)
    requires
        distinct_identities(entries),
        0 <= i < entries.len(),
        entries[i].identity == req.identity,
    ensures
        distinct_identities(entries.update(i, req)),
        registrations(entries.update(i, req)) == registrations(entries).insert(
            req.identity,
            req.onion_pk,
        ),
    decreases entries.len(),
{
    let updated = entries.update(i, req);
    assert forall|a: int, b: int| 0 <= a < b < updated.len() implies (
    #[trigger] updated[a]).identity != (#[trigger] updated[b]).identity by {
        assert(entries[a].identity != entries[b].identity);
    }
    let rest = entries.drop_last();
    if i == entries.len() - 1 {
        assert(updated.drop_last() =~= rest);
        assert(registrations(updated) =~= registrations(entries).insert(
            req.identity,
            req.onion_pk,
        ));
    } else {
        assert forall|a: int, b: int| 0 <= a < b < rest.len() implies (#[trigger] rest[a]).identity
            != (#[trigger] rest[b]).identity by {
            assert(entries[a].identity != entries[b].identity);
        }
        lemma_registrations_update(rest, i, req);
        assert(updated.drop_last() =~= rest.update(i, req));
        assert(entries[i].identity != entries[entries.len() - 1].identity);
        assert(registrations(updated) =~= registrations(entries).insert(
            req.identity,
            req.onion_pk,
        ));
    }
}

/// Registering is idempotent, and of two registrations of one identity the
/// later wins: the second of two requests of the same identity leaves the
/// table as if it had come alone.
pub proof fn lemma_registration_idempotent(
    table: Map<Fingerprint, [u8; 32]>,
    first: RegisterHavenReq,
    second: RegisterHavenReq,
)
    requires
        first.identity == second.identity,
    ensures
        table.insert(first.identity, first.onion_pk).insert(second.identity, second.onion_pk)
            == table.insert(second.identity, second.onion_pk),
        table.insert(first.identity, first.onion_pk).insert(first.identity, first.onion_pk)
            == table.insert(first.identity, first.onion_pk),
{
    assert(table.insert(first.identity, first.onion_pk).insert(second.identity, second.onion_pk)
        =~= table.insert(second.identity, second.onion_pk));
    assert(table.insert(first.identity, first.onion_pk).insert(first.identity, first.onion_pk)
        =~= table.insert(first.identity, first.onion_pk));
}

/// The havens that a rendezvous relay forwards for, by identity.
pub struct ForwardTable {
    entries: Vec<RegisterHavenReq>,
}

impl View for ForwardTable {
    type V = Map<Fingerprint, [u8; 32]>;

    closed spec fn view(&self) -> Map<Fingerprint, [u8; 32]> {
        registrations(self.entries@)
    }
}

impl ForwardTable {
    /// The table holds at most one entry for each identity.
    pub closed spec fn wf(&self) -> bool {
        distinct_identities(self.entries@)
    }

    /// A table without registrations.
    pub fn new() -> (table: ForwardTable)
        ensures
            table.wf(),
            table@ == Map::<Fingerprint, [u8; 32]>::empty(),
    {
        ForwardTable { entries: Vec::new() }
    }

    fn position(&self, identity: &Fingerprint) -> (at: Option<usize>)
        ensures
            match at {
                Some(i) => i < self.entries@.len() && self.entries@[i as int].identity
                    == *identity,
                None => forall|j: int|
                    0 <= j < self.entries@.len() ==> (#[trigger] self.entries@[j]).identity
                        != *identity,
            },
    {
        let mut i: usize = 0;
        while i < self.entries.len()
            invariant
                i <= self.entries@.len(),
                forall|j: int| 0 <= j < i ==> (#[trigger] self.entries@[j]).identity != *identity,
            decreases self.entries@.len() - i,
        {
            if self.entries[i].identity == *identity {
                return Some(i);
            }
            i += 1;
        }
        None
    }

    /// Registers a haven, in place of what was registered for its identity.
    pub fn alloc_forward(&mut self, req: RegisterHavenReq)
        requires
            old(self).wf(),
        ensures
            final(self).wf(),
            final(self)@ == old(self)@.insert(req.identity, req.onion_pk),
    {
        match self.position(&req.identity) {
            Some(i) => {
                proof {
                    lemma_registrations_update(self.entries@, i as int, req);
                }
                self.entries[i] = req;
            },
            None => {
                proof {
                    assert(self.entries@.push(req).drop_last() =~= self.entries@);
                }
                self.entries.push(req);
                assert(distinct_identities(self.entries@));
            },
        }
    }

    /// The onion key registered for `identity`, if any.
    pub fn lookup(&self, identity: &Fingerprint) -> (found: Option<[u8; 32]>)
        requires
            self.wf(),
        ensures
            match found {
                Some(onion_pk) => self@.dom().contains(*identity) && self@[*identity] == onion_pk,
                None => !self@.dom().contains(*identity),
            },
    {
        proof {
            lemma_registrations_dom(self.entries@, *identity);
        }
        match self.position(identity) {
            Some(i) => {
                proof {
                    lemma_registrations_at(self.entries@, i as int);
                }
                Some(self.entries[i].onion_pk)
            },
            None => None,
        }
    }

    /// How many havens are registered.
    pub fn len(&self) -> (n: usize)
        requires
            self.wf(),
        ensures
            n == self@.dom().len(),
            self@.dom().finite(),
    {
        proof {
            lemma_registrations_len(self.entries@);
        }
        self.entries.len()
    }
}

proof fn lemma_registrations_len(entries: Seq<RegisterHavenReq>)
    requires
        distinct_identities(entries),
    ensures
        registrations(entries).dom().finite(),
        registrations(entries).dom().len() == entries.len(),
    decreases entries.len(),
{
    if entries.len() > 0 {
        let rest = entries.drop_last();
        assert forall|a: int, b: int| 0 <= a < b < rest.len() implies (#[trigger] rest[a]).identity
            != (#[trigger] rest[b]).identity by {
            assert(entries[a].identity != entries[b].identity);
        }
        lemma_registrations_len(rest);
        lemma_registrations_dom(rest, entries.last().identity);
        if registrations(rest).dom().contains(entries.last().identity) {
            let i = choose|i: int|
                0 <= i < rest.len() && (#[trigger] rest[i]).identity == entries.last().identity;
            assert(entries[i].identity != entries[entries.len() - 1].identity);
        }
    }
}

} // verus!
