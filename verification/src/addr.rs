use vstd::prelude::*;
use vstd::std_specs::cmp::PartialEqSpecImpl;
use earendil_crypt::{HavenIdentityPublic, HavenIdentitySecret};

verus! {

/// The 160-bit identifier of a long-term signing key.
#[derive(Clone, Copy, Debug, Eq, Hash)]
pub struct Fingerprint {
    pub bytes: [u8; 20],
}

impl View for Fingerprint {
    type V = Seq<u8>;

    open spec fn view(&self) -> Seq<u8> {
        self.bytes@
    }
}

impl PartialEqSpecImpl for Fingerprint {
    open spec fn obeys_eq_spec() -> bool {
        true
    }

    open spec fn eq_spec(&self, other: &Fingerprint) -> bool {
        *self == *other
    }
}

/// Whether `x` comes before `y` where both are read as big-endian numbers of
/// the same length.
pub open spec fn lex_less(x: Seq<u8>, y: Seq<u8>) -> bool {
    exists|i: int|
        0 <= i < x.len() && i < y.len() && x[i] < y[i] && forall|j: int|
            0 <= j < i ==> x[j] == y[j]
}

/// Of two fingerprints that differ one comes before the other.
pub proof fn lemma_fingerprints_are_ordered(a: Fingerprint, b: Fingerprint)
    ensures
        a == b || lex_less(a@, b@) || lex_less(b@, a@),
        !(lex_less(a@, b@) && lex_less(b@, a@)),
        !lex_less(a@, a@),
{
    lemma_fingerprint_by_bytes(a, b);
    if a@ != b@ {
        assert(!(a@ =~= b@));
        lemma_first_difference(a@, b@, 20);
    }
    if lex_less(a@, b@) && lex_less(b@, a@) {
        let i = choose|i: int|
            0 <= i < a@.len() && i < b@.len() && a@[i] < b@[i] && forall|j: int|
                0 <= j < i ==> a@[j] == b@[j];
        let k = choose|k: int|
            0 <= k < b@.len() && k < a@.len() && b@[k] < a@[k] && forall|j: int|
                0 <= j < k ==> b@[j] == a@[j];
        if i < k {
            assert(b@[i] == a@[i]);
        } else if k < i {
            assert(a@[k] == b@[k]);
        }
    }
}

/// Two byte strings that differ within their first `n` bytes have a first
/// byte in which they differ.
proof fn lemma_first_difference(x: Seq<u8>, y: Seq<u8>, n: int)
    requires
        0 <= n <= x.len(),
        n <= y.len(),
        exists|i: int| 0 <= i < n && x[i] != y[i],
    ensures
        exists|i: int| 0 <= i < n && x[i] != y[i] && forall|j: int| 0 <= j < i ==> x[j] == y[j],
    decreases n,
{
    if exists|i: int| 0 <= i < n - 1 && x[i] != y[i] {
        lemma_first_difference(x, y, n - 1);
    } else {
        assert(x[n - 1] != y[n - 1]);
    }
}

/// Two fingerprints are the same exactly if they hold the same bytes.
pub proof fn lemma_fingerprint_by_bytes(a: Fingerprint, b: Fingerprint)
    ensures
        (a == b) <==> (a@ == b@),
{
    if a@ == b@ {
        assert(a.bytes =~= b.bytes);
    }
}

impl Fingerprint {
    /// Whether this fingerprint comes before `other` in the order of their
    /// bytes.
    pub fn precedes(&self, other: &Fingerprint) -> (yes: bool)
        ensures
            yes == lex_less(self@, other@),
    {
        let mut i: usize = 0;
        while i < 20
            invariant
                i <= 20,
                forall|j: int| 0 <= j < i ==> self@[j] == other@[j],
            decreases 20 - i,
        {
            if self.bytes[i] < other.bytes[i] {
                return true;
            }
            if self.bytes[i] > other.bytes[i] {
                assert forall|k: int|
                    0 <= k < 20 && self@[k] < other@[k] implies !(forall|j: int|
                    0 <= j < k ==> self@[j] == other@[j]) by {
                    if k > i {
                        assert(self@[i as int] != other@[i as int]);
                    }
                }
                return false;
            }
            i += 1;
        }
        false
    }

    /// Wraps twenty raw bytes.
    pub fn from_bytes(bytes: [u8; 20]) -> (fp: Fingerprint)
        ensures
            fp.bytes == bytes,
            fp@ == bytes@,
    {
        Fingerprint { bytes }
    }

}

impl PartialEq for Fingerprint {
    fn eq(&self, other: &Fingerprint) -> (same: bool) {
        let mut i: usize = 0;
        while i < 20
            invariant
                i <= 20,
                forall|j: int| 0 <= j < i ==> self.bytes[j] == other.bytes[j],
            decreases 20 - i,
        {
            if self.bytes[i] != other.bytes[i] {
                return false;
            }
            i += 1;
        }
        assert(self.bytes@ =~= other.bytes@);
        assert(self.bytes == other.bytes);
        true
    }
}

/// The fingerprint that `earendil_crypt` derives from the 32 bytes of a
/// public signing key.
pub uninterp spec fn fingerprint_of_key(key: Seq<u8>) -> Seq<u8>;

/// Whether `earendil_crypt` accepts `sig` as the signature of `msg` under the
/// public signing key `key`.
pub uninterp spec fn signature_accepted(key: Seq<u8>, msg: Seq<u8>, sig: Seq<u8>) -> bool;

/// Calls `HavenIdentityPublic::fingerprint` of `earendil_crypt`: a keyed hash
/// of the key, cut to twenty bytes. The contract only names the result, which
/// depends on the key alone. The key is built from exactly 32 bytes, which
/// `try_from` always takes.
#[verifier::external_body]
fn key_fingerprint(key: &[u8; 32]) -> (fingerprint: [u8; 20])
    ensures
        fingerprint@ == fingerprint_of_key(key@),
{
    let public = HavenIdentityPublic::try_from(key.to_vec()).unwrap();
    *public.fingerprint().as_bytes()
}

/// Calls `HavenIdentityPublic::verify` of `earendil_crypt`, an Ed25519
/// verification. The contract only names the verdict, which depends on the
/// key, the message and the signature alone; a signature of the wrong length
/// or a key that is no curve point is refused, not a panic.
#[verifier::external_body]
fn key_verifies(key: &[u8; 32], msg: &[u8], sig: &[u8]) -> (accepted: bool)
    ensures
        accepted == signature_accepted(key@, msg@, sig@),
{
    let public = HavenIdentityPublic::try_from(key.to_vec()).unwrap();
    public.verify(msg, sig).is_ok()
}

/// The public key that `earendil_crypt` derives from the 32 bytes of a
/// secret signing key.
pub uninterp spec fn public_of_identity(secret: Seq<u8>) -> Seq<u8>;

/// The signature that `earendil_crypt` makes of `msg` with the secret signing
/// key `secret`.
pub uninterp spec fn signature_of(secret: Seq<u8>, msg: Seq<u8>) -> Seq<u8>;

/// Calls `HavenIdentitySecret::public` of `earendil_crypt` and hands out the
/// 32 bytes of the public key. The contract only names them: they depend on
/// the secret alone.
#[verifier::external_body]
fn secret_public(secret: &[u8; 32]) -> (public: [u8; 32])
    ensures
        public@ == public_of_identity(secret@),
{
    let mut public = [0u8; 32];
    public.copy_from_slice(HavenIdentitySecret::from_bytes(secret).public().as_ref());
    public
}

/// Calls `HavenIdentitySecret::sign` of `earendil_crypt`, an Ed25519
/// signature, which depends on the secret and the message alone. The
/// contract names it, and says that the public key of the secret accepts it.
#[verifier::external_body]
fn secret_signs(secret: &[u8; 32], msg: &[u8]) -> (sig: Vec<u8>)
    ensures
        sig@ == signature_of(secret@, msg@),
        signature_accepted(public_of_identity(secret@), msg@, sig@),
{
    HavenIdentitySecret::from_bytes(secret).sign(msg).to_vec()
}

/// Appends `bytes` to `out`.
pub fn append_bytes(out: &mut Vec<u8>, bytes: &[u8])
    ensures
        final(out)@ == old(out)@ + bytes@,
{
    out.extend_from_slice(bytes);
    assert(out@ =~= old(out)@ + bytes@);
}

/// The secret half of a long-term signing key.
#[derive(Clone, Copy)]
pub struct IdentitySecret {
    pub bytes: [u8; 32],
}

impl View for IdentitySecret {
    type V = Seq<u8>;

    open spec fn view(&self) -> Seq<u8> {
        self.bytes@
    }
}

impl IdentitySecret {
    /// The public half of the key.
    pub fn public(&self) -> (public: IdentityPublic)
        ensures
            public@ == public_of_identity(self@),
    {
        IdentityPublic { bytes: secret_public(&self.bytes) }
    }

    /// Signs a message. The public half of the key accepts the signature.
    pub fn sign(&self, msg: &[u8]) -> (sig: Vec<u8>)
        ensures
            sig@ == signature_of(self@, msg@),
            signature_accepted(public_of_identity(self@), msg@, sig@),
    {
        secret_signs(&self.bytes, msg)
    }
}

/// The public half of a long-term signing key.
#[derive(Clone, Copy, Debug, Eq)]
pub struct IdentityPublic {
    pub bytes: [u8; 32],
}

impl View for IdentityPublic {
    type V = Seq<u8>;

    open spec fn view(&self) -> Seq<u8> {
        self.bytes@
    }
}

impl PartialEq for IdentityPublic {
    fn eq(&self, other: &IdentityPublic) -> (same: bool) {
        let mut i: usize = 0;
        while i < 32
            invariant
                i <= 32,
                forall|j: int| 0 <= j < i ==> self.bytes[j] == other.bytes[j],
            decreases 32 - i,
        {
            if self.bytes[i] != other.bytes[i] {
                return false;
            }
            i += 1;
        }
        assert(self.bytes@ =~= other.bytes@);
        assert(self.bytes == other.bytes);
        true
    }
}

impl PartialEqSpecImpl for IdentityPublic {
    open spec fn obeys_eq_spec() -> bool {
        true
    }

    open spec fn eq_spec(&self, other: &IdentityPublic) -> bool {
        *self == *other
    }
}

impl IdentityPublic {
    /// The fingerprint under which the key is known.
    pub fn fingerprint(&self) -> (fingerprint: Fingerprint)
        ensures
            fingerprint@ == fingerprint_of_key(self@),
    {
        Fingerprint::from_bytes(key_fingerprint(&self.bytes))
    }

    /// Whether `sig` is a signature of `msg` under this key.
    pub fn verify(&self, msg: &[u8], sig: &[u8]) -> (accepted: bool)
        ensures
            accepted == signature_accepted(self@, msg@, sig@),
    {
        key_verifies(&self.bytes, msg, sig)
    }
}

/// The sixteen random bytes under which an anonymous sender is known to the
/// relay that it talks to.
#[derive(Clone, Copy, Debug, Eq)]
pub struct AnonEndpoint {
    pub bytes: [u8; 16],
}

impl View for AnonEndpoint {
    type V = Seq<u8>;

    open spec fn view(&self) -> Seq<u8> {
        self.bytes@
    }
}

impl PartialEq for AnonEndpoint {
    fn eq(&self, other: &AnonEndpoint) -> (same: bool) {
        let mut i: usize = 0;
        while i < 16
            invariant
                i <= 16,
                forall|j: int| 0 <= j < i ==> self.bytes[j] == other.bytes[j],
            decreases 16 - i,
        {
            if self.bytes[i] != other.bytes[i] {
                return false;
            }
            i += 1;
        }
        assert(self.bytes@ =~= other.bytes@);
        assert(self.bytes == other.bytes);
        true
    }
}

impl PartialEqSpecImpl for AnonEndpoint {
    open spec fn obeys_eq_spec() -> bool {
        true
    }

    open spec fn eq_spec(&self, other: &AnonEndpoint) -> bool {
        *self == *other
    }
}

} // verus!
