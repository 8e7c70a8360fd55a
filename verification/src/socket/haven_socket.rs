use vstd::prelude::*;
use bytes::Bytes;
use earendil_crypt::{HavenEndpoint, HavenFingerprint};
use earendil_packet::crypt::{box_decrypt, box_encrypt, DhPublic, DhSecret};
use stdcode::StdcodeSerializeExt;
use crate::addr::{lemma_fingerprint_by_bytes, Fingerprint};
use crate::haven::{HavenLocator, HAVEN_FORWARD_DOCK};
use crate::socket::n2r_socket::{DockTable, N2rSocket, EPHEMERAL_DOCK_MIN};
use crate::socket::{Dock, Endpoint, SocketBindError, SocketRecvError, SocketSendError};

verus! {

/// The failure of a `stdcode` decoding, carried through untouched.
#[verifier::external_type_specification]
#[verifier::external_body]
pub struct ExBincodeErrorKind(bincode::ErrorKind);

/// The `width` low bytes of `n`, the lowest first.
pub open spec fn le_bytes(n: nat, width: nat) -> Seq<u8>
    decreases width,
{
    if width == 0 {
        Seq::empty()
    } else {
        seq![(n % 256) as u8] + le_bytes(n / 256, (width - 1) as nat)
    }
}

/// A number as `stdcode` writes it: up to 250 in one byte, else a byte that
/// tells the width (251, 252, 253 for two, four, eight bytes) and the number
/// in that many bytes, the lowest first.
pub open spec fn varint(n: nat) -> Seq<u8> {
    if n <= 250 {
        seq![n as u8]
    } else if n <= 0xffff {
        seq![251u8] + le_bytes(n, 2)
    } else if n <= 0xffff_ffff {
        seq![252u8] + le_bytes(n, 4)
    } else {
        seq![253u8] + le_bytes(n, 8)
    }
}

/// The frame of a haven message, which is what `stdcode` writes for the pair
/// of a body and an endpoint: the length of the body as a `varint`, the
/// body, the twenty bytes of the fingerprint, and the dock as a `varint`.
pub open spec fn haven_frame(body: Seq<u8>, fingerprint: Seq<u8>, dock: u16) -> Seq<u8> {
    varint(body.len()) + body + fingerprint + varint(dock as nat)
}

/// What `stdcode` reads out of a byte string as the pair of a body and an
/// endpoint, `None` where it rejects the bytes.
pub uninterp spec fn stdcode_to_haven_msg(wire: Seq<u8>) -> Option<(Seq<u8>, Seq<u8>, u16)>;

/// Calls `stdcode`'s `StdcodeSerializeExt::stdcode` on `(Bytes, HavenEndpoint)`.
/// The bytes that come out are the `haven_frame` of the body, the twenty
/// fingerprint bytes and the dock, and `stdcode::deserialize` reads the same
/// three back out of them.
#[verifier::external_body]
fn stdcode_encode(body: &[u8], fingerprint: &[u8; 20], dock: u16) -> (wire: Vec<u8>)
    ensures
        wire@ == haven_frame(body@, fingerprint@, dock),
        stdcode_to_haven_msg(wire@) == Some((body@, fingerprint@, dock)),
{
    let to = HavenEndpoint::new(HavenFingerprint::from_bytes(fingerprint), dock);
    (Bytes::copy_from_slice(body), to).stdcode()
}

/// Calls `stdcode::deserialize` for `(Bytes, HavenEndpoint)`. The contract
/// names what was read: it depends on the bytes alone, and the call fails
/// exactly where nothing can be read.
#[verifier::external_body]
fn stdcode_decode(wire: &[u8]) -> (decoded: Result<(Vec<u8>, [u8; 20], u16), Box<bincode::ErrorKind>>)
    ensures
        match decoded {
            Ok((body, fingerprint, dock)) => stdcode_to_haven_msg(wire@) == Some(
                (body@, fingerprint@, dock),
            ),
            Err(_) => stdcode_to_haven_msg(wire@).is_none(),
        },
{
    let parsed: Result<(Bytes, HavenEndpoint), bincode::Error> = stdcode::deserialize(wire);
    match parsed {
        Ok((body, to)) => Ok((body.to_vec(), *to.fingerprint.as_bytes(), to.port)),
        Err(e) => Err(e),
    }
}

/// An X25519 secret key, carried through untouched.
#[verifier::external_type_specification]
#[verifier::external_body]
pub struct ExDhSecret(DhSecret);

/// The 32 bytes of the public key that belongs to a secret key.
pub uninterp spec fn public_of_secret(secret: DhSecret) -> Seq<u8>;

/// What `box_decrypt` of `earendil_packet` makes of sealed bytes with a
/// secret key: the message, or `None` where the box does not open.
pub uninterp spec fn box_opening(sealed: Seq<u8>, secret: DhSecret) -> Option<Seq<u8>>;

/// How many bytes a sealed body is longer than the body: the 32 bytes of the
/// sender's fresh public key and the 16 bytes of the tag.
pub const BOX_OVERHEAD: usize = 48;

/// `sealed` holds `body`, sealed for the holder of the public key
/// `recipient`: it is longer than the body by the overhead, and every secret
/// key that `recipient` belongs to opens it to the body.
pub open spec fn sealed_for(sealed: Seq<u8>, recipient: Seq<u8>, body: Seq<u8>) -> bool {
    &&& sealed.len() == body.len() + BOX_OVERHEAD
    &&& forall|secret: DhSecret|
        public_of_secret(secret) == recipient ==> #[trigger] box_opening(sealed, secret)
            == Some(body)
}

/// Calls `DhSecret::generate` of `earendil_packet`. The key is random:
/// nothing is claimed of it.
#[verifier::external_body]
fn onion_secret() -> DhSecret {
    DhSecret::generate()
}

/// Calls `DhSecret::public` of `earendil_packet` and hands out the 32 bytes
/// of the public key. The contract names them: they depend on the secret
/// alone.
#[verifier::external_body]
fn onion_public(secret: &DhSecret) -> (public: [u8; 32])
    ensures
        public@ == public_of_secret(*secret),
{
    *secret.public().as_bytes()
}

/// Calls `box_encrypt` of `earendil_packet`, which seals a message for the
/// holder of a public key under a fresh random key. Whatever that key, the
/// sealed bytes are the sender's public key, the message under the cipher and
/// the tag, and the Diffie-Hellman secret that the recipient derives from
/// them is the one they were sealed under: `sealed_for` holds. The cipher
/// refuses messages of `u32::MAX` blocks of 64 bytes and more, which
/// `box_encrypt` turns into a panic: they are left out.
#[verifier::external_body]
fn box_seal(body: &[u8], recipient: &[u8; 32]) -> (sealed: Vec<u8>)
    requires
        body@.len() / 64 < u32::MAX,
    ensures
        sealed_for(sealed@, recipient@, body@),
{
    box_encrypt(body, &DhPublic::from_bytes(recipient)).0
}

/// Calls `box_decrypt` of `earendil_packet` and hands out the message, or
/// `None` where the box does not open. The contract names the result, which
/// depends on the sealed bytes and the secret alone.
#[verifier::external_body]
fn box_open(sealed: &[u8], secret: &DhSecret) -> (opened: Option<Vec<u8>>)
    ensures
        match opened {
            Some(body) => box_opening(sealed@, *secret) == Some(body@),
            None => box_opening(sealed@, *secret).is_none(),
        },
{
    match box_decrypt(sealed, secret) {
        Ok((body, _sender)) => Some(body),
        Err(_) => None,
    }
}

/// What a haven socket asks of its surroundings in order to send one message.
#[derive(Debug)]
pub enum HavenSendStep {
    /// Hand `payload` to the N2R socket, addressed to `to`.
    Transmit { payload: Vec<u8>, to: Endpoint },
    /// Look the haven of `endpoint` up in the DHT, then go on with
    /// `send_after_lookup`.
    Lookup { body: Vec<u8>, endpoint: Endpoint },
}

/// How a DHT lookup for a haven's locator ended.
#[derive(Debug)]
pub enum DhtLookup {
    Found(HavenLocator),
    Missing,
    Failed,
}

/// What a frame that `stdcode` read turns into once the body was opened, or
/// was found not to open (`opened` is then `None`).
pub open spec fn opened_outcome(
    opened: Option<Vec<u8>>,
    from: Endpoint,
    outcome: Result<(Vec<u8>, Endpoint), SocketRecvError>,
) -> bool {
    match opened {
        Some(body) => outcome == Ok::<(Vec<u8>, Endpoint), SocketRecvError>((body, from)),
        None => outcome == Err::<(Vec<u8>, Endpoint), SocketRecvError>(
            SocketRecvError::HavenMsgBadFormat,
        ),
    }
}

/// The largest body that can be sealed: the cipher takes fewer than
/// `u32::MAX` blocks of 64 bytes.
pub open spec fn sealable(body: Seq<u8>) -> bool {
    body.len() / 64 < u32::MAX
}

/// Whether a body can be sealed.
pub fn is_sealable(body: &[u8]) -> (yes: bool)
    ensures
        yes == sealable(body@),
{
    body.len() / 64 < 0xffff_ffff
}

/// Frames a sealed body for the haven that `locator` belongs to: the frame
/// goes to the forwarding dock of the haven's rendezvous relay.
pub fn frame_sealed(sealed: &[u8], endpoint: Endpoint, locator: &HavenLocator) -> (out: (
    Vec<u8>,
    Endpoint,
))
    ensures
        out.0@ == haven_frame(sealed@, endpoint.fingerprint@, endpoint.dock),
        stdcode_to_haven_msg(out.0@) == Some((sealed@, endpoint.fingerprint@, endpoint.dock)),
        out.1 == (Endpoint { fingerprint: locator.rendezvous_point, dock: HAVEN_FORWARD_DOCK }),
{
    (
        stdcode_encode(sealed, &endpoint.fingerprint.bytes, endpoint.dock),
        Endpoint::new(locator.rendezvous_point, HAVEN_FORWARD_DOCK),
    )
}

/// Turns a decoding result into what a socket hands to its caller where the
/// body is taken as it stands.
pub fn haven_msg_from_decoded(
    decoded: Result<(Vec<u8>, [u8; 20], u16), Box<bincode::ErrorKind>>,
) -> (outcome: Result<(Vec<u8>, Endpoint), SocketRecvError>)
    ensures
        match decoded {
            Ok((body, fingerprint, dock)) => outcome == Ok::<(Vec<u8>, Endpoint), SocketRecvError>(
                (body, Endpoint { fingerprint: Fingerprint { bytes: fingerprint }, dock }),
            ),
            Err(_) => outcome == Err::<(Vec<u8>, Endpoint), SocketRecvError>(
                SocketRecvError::HavenMsgBadFormat,
            ),
        },
{
    match decoded {
        Ok((body, fingerprint, dock)) => Ok(
            (body, Endpoint::new(Fingerprint::from_bytes(fingerprint), dock)),
        ),
        Err(_) => Err(SocketRecvError::HavenMsgBadFormat),
    }
}

/// Turns the opening of a sealed body into what a server hands to its
/// caller: a body that does not open is a message of bad format.
pub fn haven_msg_from_opened(opened: Option<Vec<u8>>, from: Endpoint) -> (outcome: Result<
    (Vec<u8>, Endpoint),
    SocketRecvError,
>)
    ensures
        opened_outcome(opened, from, outcome),
{
    match opened {
        Some(body) => Ok((body, from)),
        None => Err(SocketRecvError::HavenMsgBadFormat),
    }
}

/// Seconds that one registration call, or one publication of the locator,
/// may take.
pub const REGISTER_TIMEOUT_SECS: u64 = 30;

/// Seconds to wait after a registration that failed or timed out.
pub const REGISTER_RETRY_SECS: u64 = 1;

/// Seconds between a successful registration and its refresh: fifty minutes.
pub const REGISTER_REFRESH_SECS: u64 = 3000;

/// Where a server's registration loop stands.
#[derive(Clone, Copy, Debug, PartialEq, Eq, Structural)]
pub enum RegistrationPhase {
    /// The loop has not begun; a client stays here.
    Idle,
    /// `alloc_forward` is under way at the rendezvous relay.
    Registering,
    /// The locator is being put into the DHT.
    Publishing,
    /// Waiting a moment after a failure.
    Retrying,
    /// Registered; waiting for the refresh.
    Resting,
}

/// What the surroundings report to the registration loop.
#[derive(Clone, Copy, Debug, PartialEq, Eq, Structural)]
pub enum RegistrationEvent {
    /// The socket was bound and the loop may begin.
    Started,
    /// The rendezvous relay accepted the registration.
    Accepted,
    /// The rendezvous relay answered with an error.
    Refused,
    /// The call under way did not end in time.
    TimedOut,
    /// The publication of the locator ended.
    Published,
    /// The sleep that the loop asked for is over.
    Woke,
}

/// What the registration loop asks of its surroundings.
#[derive(Clone, Copy, Debug, PartialEq, Eq)]
pub enum RegistrationAction {
    /// Call `alloc_forward` at `rendezvous` for the haven `identity` with the
    /// onion key `onion_pk`, for at most `timeout_secs`.
    Register { identity: Fingerprint, onion_pk: [u8; 32], rendezvous: Fingerprint, timeout_secs: u64 },
    /// Publish a locator that names `onion_pk` and `rendezvous`, for at most
    /// `timeout_secs`.
    Publish { identity: Fingerprint, onion_pk: [u8; 32], rendezvous: Fingerprint, timeout_secs: u64 },
    /// Sleep for `secs`, then report `Woke`.
    Sleep { secs: u64 },
    /// The event does not belong to this phase: nothing to do.
    Ignore,
}

/// The registration loop of a server with the given identity, onion key and
/// rendezvous relay: the phase and the action that follow `event` in `phase`.
pub open spec fn registration_next(
    identity: Fingerprint,
    onion_pk: [u8; 32],
    rendezvous: Fingerprint,
    phase: RegistrationPhase,
    event: RegistrationEvent,
) -> (RegistrationPhase, RegistrationAction) {
    let register = RegistrationAction::Register {
        identity,
        onion_pk,
        rendezvous,
        timeout_secs: REGISTER_TIMEOUT_SECS,
    };
    match (phase, event) {
        (RegistrationPhase::Idle, RegistrationEvent::Started) => (
            RegistrationPhase::Registering,
            register,
        ),
        (RegistrationPhase::Registering, RegistrationEvent::Accepted) => (
            RegistrationPhase::Publishing,
            RegistrationAction::Publish {
                identity,
                onion_pk,
                rendezvous,
                timeout_secs: REGISTER_TIMEOUT_SECS,
            },
        ),
        (RegistrationPhase::Registering, RegistrationEvent::Refused) => (
            RegistrationPhase::Retrying,
            RegistrationAction::Sleep { secs: REGISTER_RETRY_SECS },
        ),
        (RegistrationPhase::Registering, RegistrationEvent::TimedOut) => (
            RegistrationPhase::Retrying,
            RegistrationAction::Sleep { secs: REGISTER_RETRY_SECS },
        ),
        (RegistrationPhase::Publishing, RegistrationEvent::Published) => (
            RegistrationPhase::Resting,
            RegistrationAction::Sleep { secs: REGISTER_REFRESH_SECS },
        ),
        (RegistrationPhase::Publishing, RegistrationEvent::TimedOut) => (
            RegistrationPhase::Resting,
            RegistrationAction::Sleep { secs: REGISTER_REFRESH_SECS },
        ),
        (RegistrationPhase::Retrying, RegistrationEvent::Woke) => (
            RegistrationPhase::Registering,
            register,
        ),
        (RegistrationPhase::Resting, RegistrationEvent::Woke) => (
            RegistrationPhase::Registering,
            register,
        ),
        _ => (phase, RegistrationAction::Ignore),
    }
}

/// One step of the registration loop.
pub fn registration_step(
    identity: Fingerprint,
    onion_pk: [u8; 32],
    rendezvous: Fingerprint,
    phase: RegistrationPhase,
    event: RegistrationEvent,
) -> (next: (RegistrationPhase, RegistrationAction))
    ensures
        next == registration_next(identity, onion_pk, rendezvous, phase, event),
{
    let register = RegistrationAction::Register {
        identity,
        onion_pk,
        rendezvous,
        timeout_secs: REGISTER_TIMEOUT_SECS,
    };
    let retry = RegistrationAction::Sleep { secs: REGISTER_RETRY_SECS };
    let rest = RegistrationAction::Sleep { secs: REGISTER_REFRESH_SECS };
    match phase {
        RegistrationPhase::Idle => match event {
            RegistrationEvent::Started => (RegistrationPhase::Registering, register),
            _ => (phase, RegistrationAction::Ignore),
        },
        RegistrationPhase::Registering => match event {
            RegistrationEvent::Accepted => (
                RegistrationPhase::Publishing,
                RegistrationAction::Publish {
                    identity,
                    onion_pk,
                    rendezvous,
                    timeout_secs: REGISTER_TIMEOUT_SECS,
                },
            ),
            RegistrationEvent::Refused => (RegistrationPhase::Retrying, retry),
            RegistrationEvent::TimedOut => (RegistrationPhase::Retrying, retry),
            _ => (phase, RegistrationAction::Ignore),
        },
        RegistrationPhase::Publishing => match event {
            RegistrationEvent::Published => (RegistrationPhase::Resting, rest),
            RegistrationEvent::TimedOut => (RegistrationPhase::Resting, rest),
            _ => (phase, RegistrationAction::Ignore),
        },
        RegistrationPhase::Retrying => match event {
            RegistrationEvent::Woke => (RegistrationPhase::Registering, register),
            _ => (phase, RegistrationAction::Ignore),
        },
        RegistrationPhase::Resting => match event {
            RegistrationEvent::Woke => (RegistrationPhase::Registering, register),
            _ => (phase, RegistrationAction::Ignore),
        },
    }
}

/// The registration loop never comes to rest: in every phase but `Idle` some
/// event leads on, and no step leads back to `Idle`.
pub proof fn lemma_registration_goes_on(
    identity: Fingerprint,
    onion_pk: [u8; 32],
    rendezvous: Fingerprint,
    phase: RegistrationPhase,
    event: RegistrationEvent,
)
    ensures
        exists|e: RegistrationEvent|
            registration_next(identity, onion_pk, rendezvous, phase, e).1
                != RegistrationAction::Ignore,
        phase != RegistrationPhase::Idle ==> registration_next(
            identity,
            onion_pk,
            rendezvous,
            phase,
            event,
        ).0 != RegistrationPhase::Idle,
{
    let e = match phase {
        RegistrationPhase::Idle => RegistrationEvent::Started,
        RegistrationPhase::Registering => RegistrationEvent::Accepted,
        RegistrationPhase::Publishing => RegistrationEvent::Published,
        _ => RegistrationEvent::Woke,
    };
    assert(registration_next(identity, onion_pk, rendezvous, phase, e).1
        != RegistrationAction::Ignore);
}

/// A rendezvous-based datagram socket, as a state machine without I/O: its
/// methods say what to send, look up or hand out, and the caller does it.
pub struct HavenSocket {
    n2r_socket: N2rSocket,
    onion_sk: DhSecret,
    onion_pk: [u8; 32],
    rendezvous_point: Option<Fingerprint>,
    phase: RegistrationPhase,
}

impl HavenSocket {
    /// The endpoint that the underlying N2R socket is bound to.
    pub closed spec fn local(&self) -> Endpoint {
        self.n2r_socket.local()
    }

    /// The rendezvous relay of a server; `None` for a client.
    pub closed spec fn rendezvous(&self) -> Option<Fingerprint> {
        self.rendezvous_point
    }

    /// Where the registration loop stands; `Idle` for ever in a client.
    pub closed spec fn phase(&self) -> RegistrationPhase {
        self.phase
    }

    /// The public onion key that the socket advertises.
    pub closed spec fn onion_key(&self) -> [u8; 32] {
        self.onion_pk
    }

    /// The secret onion key that the socket keeps.
    pub closed spec fn secret(&self) -> DhSecret {
        self.onion_sk
    }

    /// The socket keeps the secret of the key that it advertises.
    pub open spec fn keeps_advertised_key(&self) -> bool {
        self.onion_key()@ == public_of_secret(self.secret())
    }

    #[verifier::type_invariant]
    spec fn well_formed(&self) -> bool {
        self.keeps_advertised_key()
    }

    /// What `recv_from` makes of what the N2R socket received. A failure of
    /// the N2R socket is handed on. What `stdcode` does not read is of bad
    /// format. A client takes the body as it stands. A server opens it with
    /// its secret onion key: what opens is the body, and what does not open
    /// is of bad format too. The endpoint is the one that the frame holds.
    pub open spec fn haven_received(
        &self,
        received: Result<Vec<u8>, SocketRecvError>,
        outcome: Result<(Vec<u8>, Endpoint), SocketRecvError>,
    ) -> bool {
        match received {
            Err(e) => outcome == Err::<(Vec<u8>, Endpoint), SocketRecvError>(e),
            Ok(n2r_msg) => match stdcode_to_haven_msg(n2r_msg@) {
                None => outcome == Err::<(Vec<u8>, Endpoint), SocketRecvError>(
                    SocketRecvError::HavenMsgBadFormat,
                ),
                Some((framed, fingerprint, dock)) => {
                    let body = if self.rendezvous() is Some {
                        box_opening(framed, self.secret())
                    } else {
                        Some(framed)
                    };
                    match body {
                        Some(plain) => outcome matches Ok((b, from)) && b@ == plain
                            && from.fingerprint@ == fingerprint && from.dock == dock,
                        None => outcome == Err::<(Vec<u8>, Endpoint), SocketRecvError>(
                            SocketRecvError::HavenMsgBadFormat,
                        ),
                    }
                },
            },
        }
    }

    /// Binds a haven socket for `identity`: its N2R socket reserves the
    /// endpoint in `table`, and fails where `N2rSocket::bind` fails. With a
    /// rendezvous relay the socket is a server, whose registration loop waits
    /// for `Started`; without one it is a client. The socket gets a fresh
    /// secret onion key, and advertises the public key that belongs to it.
    pub fn bind(
        table: &mut DockTable,
        identity: Fingerprint,
        dock: Option<Dock>,
        rendezvous_point: Option<Fingerprint>,
    ) -> (socket: Result<HavenSocket, SocketBindError>)
        ensures
            match socket {
                Ok(s) => {
                    &&& s.keeps_advertised_key()
                    &&& s.rendezvous() == rendezvous_point
                    &&& s.phase() == RegistrationPhase::Idle
                    &&& s.local().fingerprint == identity
                    &&& !old(table)@.contains(s.local())
                    &&& final(table)@ == old(table)@.insert(s.local())
                    &&& match dock {
                        Some(d) => s.local().dock == d,
                        None => s.local().dock >= EPHEMERAL_DOCK_MIN && forall|e: u16|
                            EPHEMERAL_DOCK_MIN <= e < s.local().dock ==> old(table)@.contains(
                                Endpoint { fingerprint: identity, dock: e },
                            ),
                    }
                },
                Err(e) => {
                    &&& e == SocketBindError::DockInUse
                    &&& final(table)@ == old(table)@
                    &&& match dock {
                        Some(d) => old(table)@.contains(
                            Endpoint { fingerprint: identity, dock: d },
                        ),
                        None => forall|e: u16|
                            EPHEMERAL_DOCK_MIN <= e ==> old(table)@.contains(
                                Endpoint { fingerprint: identity, dock: e },
                            ),
                    }
                },
            },
    {
        match N2rSocket::bind(table, identity, dock) {
            Ok(n2r_socket) => {
                let onion_sk = onion_secret();
                let onion_pk = onion_public(&onion_sk);
                Ok(
                    HavenSocket {
                        n2r_socket,
                        onion_sk,
                        onion_pk,
                        rendezvous_point,
                        phase: RegistrationPhase::Idle,
                    },
                )
            },
            Err(e) => Err(e),
        }
    }

    /// The public onion key that the socket advertises. It is the public
    /// key of the secret that the socket keeps.
    pub fn onion_pk(&self) -> (key: [u8; 32])
        ensures
            key == self.onion_key(),
            self.keeps_advertised_key(),
    {
        proof {
            use_type_invariant(self);
        }
        self.onion_pk
    }

    /// The rendezvous relay of a server; `None` for a client.
    pub fn rendezvous_point(&self) -> (rob: Option<Fingerprint>)
        ensures
            rob == self.rendezvous(),
    {
        self.rendezvous_point
    }

    /// Where the registration loop stands.
    pub fn registration_phase(&self) -> (phase: RegistrationPhase)
        ensures
            phase == self.phase(),
    {
        self.phase
    }

    /// Feeds one event to the registration loop and says what to do next. A
    /// server registers under the fingerprint of its local endpoint, with its
    /// onion key; a client has no loop and ignores every event.
    pub fn on_registration_event(&mut self, event: RegistrationEvent) -> (action: RegistrationAction)
        ensures
            final(self).local() == old(self).local(),
            final(self).rendezvous() == old(self).rendezvous(),
            final(self).onion_key() == old(self).onion_key(),
            final(self).secret() == old(self).secret(),
            match old(self).rendezvous() {
                Some(rob) => (final(self).phase(), action) == registration_next(
                    old(self).local().fingerprint,
                    old(self).onion_key(),
                    rob,
                    old(self).phase(),
                    event,
                ),
                None => final(self).phase() == old(self).phase() && action
                    == RegistrationAction::Ignore,
            },
    {
        proof {
            use_type_invariant(&*self);
        }
        match self.rendezvous_point {
            Some(rob) => {
                let (phase, action) = registration_step(
                    self.n2r_socket.skt_info().fingerprint,
                    self.onion_pk,
                    rob,
                    self.phase,
                    event,
                );
                self.phase = phase;
                action
            },
            None => RegistrationAction::Ignore,
        }
    }

    /// Begins a send. A server frames `(body, endpoint)` as it stands and
    /// sends the frame through its own rendezvous relay. A client has to
    /// learn first where the haven of `endpoint` is reached.
    pub fn send_to(&self, body: Vec<u8>, endpoint: Endpoint) -> (step: HavenSendStep)
        ensures
            match self.rendezvous() {
                Some(rob) => step matches HavenSendStep::Transmit { payload, to } && payload@
                    == haven_frame(body@, endpoint.fingerprint@, endpoint.dock)
                    && stdcode_to_haven_msg(payload@) == Some(
                    (body@, endpoint.fingerprint@, endpoint.dock),
                ) && to == (Endpoint { fingerprint: rob, dock: HAVEN_FORWARD_DOCK }),
                None => step == (HavenSendStep::Lookup { body, endpoint }),
            },
    {
        match self.rendezvous_point {
            Some(rob) => HavenSendStep::Transmit {
                payload: stdcode_encode(
                    body.as_slice(),
                    &endpoint.fingerprint.bytes,
                    endpoint.dock,
                ),
                to: Endpoint::new(rob, HAVEN_FORWARD_DOCK),
            },
            None => HavenSendStep::Lookup { body, endpoint },
        }
    }

    /// Finishes a client's send once the DHT lookup that `send_to` asked for
    /// has ended. Without a locator the send fails with `DhtError`. With one
    /// the body is sealed for the onion key that the locator advertises, so
    /// that the rendezvous relay cannot read it, and the frame of the sealed
    /// body and `endpoint` goes to the forwarding dock of the rendezvous
    /// relay that the locator names. The sealing is random: whatever it gave,
    /// the frame holds the body sealed for the locator's key.
    pub fn send_after_lookup(&self, body: Vec<u8>, endpoint: Endpoint, found: DhtLookup) -> (outcome:
        Result<(Vec<u8>, Endpoint), SocketSendError>)
        requires
            found is Found ==> sealable(body@),
        ensures
            match found {
                DhtLookup::Found(locator) => outcome matches Ok((payload, to)) && to == (Endpoint {
                    fingerprint: locator.rendezvous_point,
                    dock: HAVEN_FORWARD_DOCK,
                }) && exists|sealed: Seq<u8>|
                    {
                        &&& sealed_for(sealed, locator.onion_pk@, body@)
                        &&& payload@ == haven_frame(sealed, endpoint.fingerprint@, endpoint.dock)
                        &&& #[trigger] stdcode_to_haven_msg(payload@) == Some(
                            (sealed, endpoint.fingerprint@, endpoint.dock),
                        )
                    },
                _ => outcome == Err::<(Vec<u8>, Endpoint), SocketSendError>(
                    SocketSendError::DhtError,
                ),
            },
    {
        match found {
            DhtLookup::Found(locator) => {
                let sealed = box_seal(body.as_slice(), &locator.onion_pk);
                let framed = frame_sealed(sealed.as_slice(), endpoint, &locator);
                assert(sealed_for(sealed@, locator.onion_pk@, body@));
                Ok(framed)
            },
            DhtLookup::Missing => Err(SocketSendError::DhtError),
            DhtLookup::Failed => Err(SocketSendError::DhtError),
        }
    }

    /// Unwraps what the N2R socket received into a body and the endpoint
    /// that comes with it, as `haven_received` says.
    pub fn recv_from(&self, received: Result<Vec<u8>, SocketRecvError>) -> (outcome: Result<
        (Vec<u8>, Endpoint),
        SocketRecvError,
    >)
        ensures
            self.haven_received(received, outcome),
    {
        proof {
            use_type_invariant(self);
        }
        let n2r_msg = match received {
            Ok(n2r_msg) => n2r_msg,
            Err(e) => {
                return Err(e);
            },
        };
        match haven_msg_from_decoded(stdcode_decode(n2r_msg.as_slice())) {
            Ok((body, from)) => match self.rendezvous_point {
                Some(_) => haven_msg_from_opened(box_open(body.as_slice(), &self.onion_sk), from),
                None => Ok((body, from)),
            },
            Err(e) => Err(e),
        }
    }

    /// The local endpoint of the socket.
    pub fn skt_info(&self) -> (ep: Endpoint)
        ensures
            ep == self.local(),
    {
        self.n2r_socket.skt_info()
    }
}

/// What a client seals for the key that a server advertises, the server
/// receives: where a frame holds `body` sealed for the server's onion key
/// together with `endpoint`, and the server keeps the secret of that key, its
/// `recv_from` hands out `body` and `endpoint`.
pub proof fn lemma_sealed_frame_is_received(
    server: HavenSocket,
    body: Seq<u8>,
    sealed: Seq<u8>,
    endpoint: Endpoint,
    payload: Vec<u8>,
    outcome: Result<(Vec<u8>, Endpoint), SocketRecvError>,
)
    requires
        server.rendezvous() is Some,
        server.keeps_advertised_key(),
        sealed_for(sealed, server.onion_key()@, body),
        stdcode_to_haven_msg(payload@) == Some((sealed, endpoint.fingerprint@, endpoint.dock)),
        server.haven_received(Ok(payload), outcome),
    ensures
        outcome matches Ok((received, from)) && received@ == body && from == endpoint,
{
    assert(box_opening(sealed, server.secret()) == Some(body));
    match outcome {
        Ok((received, from)) => {
            lemma_fingerprint_by_bytes(from.fingerprint, endpoint.fingerprint);
        },
        Err(_) => {},
    }
}

/// What a server frames for a client, the client receives as it stands.
pub proof fn lemma_plain_frame_is_received(
    client: HavenSocket,
    body: Seq<u8>,
    endpoint: Endpoint,
    payload: Vec<u8>,
    outcome: Result<(Vec<u8>, Endpoint), SocketRecvError>,
)
    requires
        client.rendezvous() is None,
        stdcode_to_haven_msg(payload@) == Some((body, endpoint.fingerprint@, endpoint.dock)),
        client.haven_received(Ok(payload), outcome),
    ensures
        outcome matches Ok((received, from)) && received@ == body && from == endpoint,
{
    match outcome {
        Ok((received, from)) => {
            lemma_fingerprint_by_bytes(from.fingerprint, endpoint.fingerprint);
        },
        Err(_) => {},
    }
}

} // verus!
