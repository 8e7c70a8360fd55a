use vstd::prelude::*;
use vstd::arithmetic::power2::{
    lemma2_to64, lemma2_to64_rest, lemma_pow2_strictly_increases, lemma_pow2_unfold, pow2,
};
use vstd::slice::slice_to_vec;
use vstd::utf8::{decode_utf8, encode_utf8, valid_utf8};
use nanorpc::{JrpcRequest, JrpcResponse};
use crate::addr::Fingerprint;
use crate::daemon::global_rpc::GLOBAL_RPC_DOCK;
use crate::socket::n2r_socket::{DockTable, N2rSocket, EPHEMERAL_DOCK_MIN};
use crate::socket::{Endpoint, SocketSendError};

verus! {

/// A JSON-RPC request, carried through untouched.
#[verifier::external_type_specification]
#[verifier::external_body]
pub struct ExJrpcRequest(JrpcRequest);

/// A JSON-RPC response, carried through untouched.
#[verifier::external_type_specification]
#[verifier::external_body]
pub struct ExJrpcResponse(JrpcResponse);

/// The failure of a JSON encoding or decoding.
#[verifier::external_type_specification]
#[verifier::external_body]
pub struct ExJsonError(serde_json::Error);

/// The failure of a UTF-8 check.
#[verifier::external_type_specification]
#[verifier::external_body]
pub struct ExFromUtf8Error(std::string::FromUtf8Error);

/// The JSON-RPC response that `serde_json` reads out of `text`, `None` where
/// it reads none.
pub uninterp spec fn json_response_of(text: Seq<char>) -> Option<JrpcResponse>;

/// The JSON text that `serde_json` writes for a request, `None` where it
/// writes none.
pub uninterp spec fn json_text_of_request(req: JrpcRequest) -> Option<Seq<char>>;

/// Calls `serde_json::to_string` on a request. The contract names the text,
/// which depends on the request alone.
#[verifier::external_body]
fn json_of_request(req: &JrpcRequest) -> (text: Result<String, serde_json::Error>)
    ensures
        match text {
            Ok(s) => json_text_of_request(*req) == Some(s@),
            Err(_) => json_text_of_request(*req).is_none(),
        },
{
    serde_json::to_string(req)
}

/// Calls `serde_json::from_str` for a response. The contract names the
/// response that is read, which depends on the text alone.
#[verifier::external_body]
fn response_of_json(text: &str) -> (parsed: Result<JrpcResponse, serde_json::Error>)
    ensures
        match parsed {
            Ok(response) => json_response_of(text@) == Some(response),
            Err(_) => json_response_of(text@).is_none(),
        },
{
    serde_json::from_str(text)
}

/// Calls `String::from_utf8`: the bytes become a string exactly if they are
/// valid UTF-8, and the string then holds what they encode.
#[verifier::external_body]
fn text_of_utf8(bytes: Vec<u8>) -> (text: Result<String, std::string::FromUtf8Error>)
    ensures
        match text {
            Ok(s) => valid_utf8(bytes@) && s@ == decode_utf8(bytes@),
            Err(_) => !valid_utf8(bytes@),
        },
{
    String::from_utf8(bytes)
}

/// Why a global RPC call failed.
#[derive(Clone, Copy, Debug, PartialEq, Eq, Structural)]
pub enum RpcTransportError {
    /// The request could not be written as JSON.
    BadRequest,
    /// No dock was left for the socket of the call.
    NoSocket,
    /// The socket could not send the request.
    SendFailed(SocketSendError),
    /// The socket failed while waiting for the response.
    RecvFailed,
    /// The response is not valid UTF-8.
    NotUtf8,
    /// The response is not a JSON-RPC response.
    BadResponse,
}

/// The last attempt whose timeout is twice that of the attempt before it.
/// From the next attempt on the timeout stays as it is, since its double
/// does not fit 64 bits.
pub const LAST_DOUBLING: u32 = 62;

/// Seconds to wait for the response to attempt `n`, counted from zero:
/// `2^(n+1)`, and `2^63` once that would be more.
pub open spec fn attempt_timeout(n: nat) -> nat {
    if n <= LAST_DOUBLING {
        pow2(n + 1)
    } else {
        pow2(63)
    }
}

/// Seconds waited in all once `n` attempts have timed out.
pub open spec fn total_wait(n: nat) -> nat
    decreases n,
{
    if n == 0 {
        0
    } else {
        total_wait((n - 1) as nat) + attempt_timeout((n - 1) as nat)
    }
}

/// A number of seconds as a counter of 64 bits holds it: itself, or the
/// largest number that fits.
pub open spec fn capped(secs: nat) -> nat {
    if secs > u64::MAX {
        u64::MAX as nat
    } else {
        secs
    }
}

/// The retry bound: before its `n`-th retry a call has waited the sum of the
/// timeouts of the attempts `0` to `n - 1`, which is `2^(n+1) - 2` seconds,
/// as long as every one of these timeouts is twice the one before it.
pub proof fn lemma_retry_bound(n: nat)
    requires
        n <= LAST_DOUBLING + 1,
    ensures
        n > 0 ==> total_wait(n) == total_wait((n - 1) as nat) + pow2(n),
        total_wait(n) + 2 == pow2(n + 1),
        total_wait(n) <= u64::MAX,
    decreases n,
{
    lemma2_to64();
    lemma2_to64_rest();
    if n > 0 {
        lemma_retry_bound((n - 1) as nat);
        lemma_pow2_unfold(n + 1);
    }
    if n + 1 < 64 {
        lemma_pow2_strictly_increases(n + 1, 64);
    }
}

/// No timeout is shorter than the one before it, and none is shorter than
/// two seconds or longer than `2^63` seconds.
pub proof fn lemma_timeouts_grow(n: nat)
    ensures
        2 <= attempt_timeout(n) <= attempt_timeout(n + 1) <= pow2(63),
        pow2(63) == 0x8000_0000_0000_0000,
{
    lemma2_to64();
    lemma2_to64_rest();
    lemma_pow2_unfold(n + 2);
    if n + 1 > 1 {
        lemma_pow2_strictly_increases(1, n + 1);
    }
    if n + 2 < 63 {
        lemma_pow2_strictly_increases(n + 2, 63);
    }
    if n + 1 < 63 {
        lemma_pow2_strictly_increases(n + 1, 63);
    }
}

/// Once more than `LAST_DOUBLING + 1` attempts have timed out, the seconds
/// waited do not fit 64 bits.
pub proof fn lemma_wait_overflows(n: nat)
    requires
        n > LAST_DOUBLING + 1,
    ensures
        total_wait(n) > u64::MAX,
    decreases n,
{
    lemma2_to64();
    lemma2_to64_rest();
    if n == LAST_DOUBLING + 2 {
        lemma_retry_bound((n - 1) as nat);
    } else {
        lemma_wait_overflows((n - 1) as nat);
    }
}

/// What the surroundings report to a call under way.
#[derive(Debug)]
pub enum RpcEvent {
    /// The socket received these bytes.
    Response(Vec<u8>),
    /// The socket failed to receive.
    RecvFailed,
    /// The socket failed to send the request.
    SendFailed(SocketSendError),
    /// Nothing came within the timeout of the current attempt.
    TimedOut,
}

/// What a call asks of its surroundings.
#[derive(Debug)]
pub enum RpcStep {
    /// Send `payload` to `to` over the call's socket and wait `timeout_secs`.
    Transmit { to: Endpoint, payload: Vec<u8>, timeout_secs: u64 },
    /// The call is over.
    Done(Result<JrpcResponse, RpcTransportError>),
}

/// Sends requests to the global RPC dock of one relay.
#[derive(Clone, Copy, Debug)]
pub struct GlobalRpcTransport {
    dest: Fingerprint,
}

/// The exponential schedule of one call: how many attempts have timed out,
/// how long the current one may take, and how long the call has waited.
#[derive(Clone, Copy, Debug)]
pub struct Backoff {
    retries: u32,
    timeout_secs: u64,
    waited_secs: u64,
}

/// One call under way: the socket that it has bound, what is sent to whom,
/// and where its schedule stands.
#[derive(Debug)]
pub struct RpcCall {
    socket: N2rSocket,
    to: Endpoint,
    payload: Vec<u8>,
    backoff: Backoff,
}

/// No ephemeral dock of `identity` is free in `bound`.
pub open spec fn no_dock_left(bound: Set<Endpoint>, identity: Fingerprint) -> bool {
    forall|e: u16|
        EPHEMERAL_DOCK_MIN <= e ==> bound.contains(Endpoint { fingerprint: identity, dock: e })
}

/// How a call begins for a request whose JSON text is `text` (`None` where
/// the request cannot be written): it binds a fresh socket for `identity` at
/// the lowest free ephemeral dock, and its first attempt sends the bytes of
/// the text to the global RPC dock of `dest`. A request that cannot be
/// written fails the call with `BadRequest`, a table without a free dock
/// with `NoSocket`; the table is then unchanged.
pub open spec fn call_begins(
    dest: Fingerprint,
    identity: Fingerprint,
    text: Option<Seq<char>>,
    before: Set<Endpoint>,
    after: Set<Endpoint>,
    call: Result<RpcCall, RpcTransportError>,
) -> bool {
    match text {
        None => call == Err::<RpcCall, RpcTransportError>(RpcTransportError::BadRequest) && after
            == before,
        Some(text) => if no_dock_left(before, identity) {
            call == Err::<RpcCall, RpcTransportError>(RpcTransportError::NoSocket) && after
                == before
        } else {
            &&& call matches Ok(c)
            &&& c.to() == (Endpoint { fingerprint: dest, dock: GLOBAL_RPC_DOCK })
            &&& c.payload() == encode_utf8(text)
            &&& c.retries() == 0
            &&& c.local().fingerprint == identity
            &&& c.local().dock >= EPHEMERAL_DOCK_MIN
            &&& !before.contains(c.local())
            &&& forall|e: u16|
                EPHEMERAL_DOCK_MIN <= e < c.local().dock ==> before.contains(
                    Endpoint { fingerprint: identity, dock: e },
                )
            &&& after == before.insert(c.local())
        },
    }
}

impl Backoff {
    #[verifier::type_invariant]
    spec fn well_formed(&self) -> bool {
        &&& self.timeout_secs == attempt_timeout(self.retries as nat)
        &&& self.waited_secs == capped(total_wait(self.retries as nat))
    }

    /// How many attempts have timed out, as far as the counter counts.
    pub closed spec fn retries(&self) -> nat {
        self.retries as nat
    }

    /// The schedule before the first attempt has timed out.
    pub fn new() -> (backoff: Backoff)
        ensures
            backoff.retries() == 0,
    {
        proof {
            lemma2_to64();
        }
        Backoff { retries: 0, timeout_secs: 2, waited_secs: 0 }
    }

    /// How many attempts have timed out.
    pub fn retry_count(&self) -> (n: u32)
        ensures
            n == self.retries(),
    {
        self.retries
    }

    /// Seconds to wait for the response to the current attempt.
    pub fn timeout_secs(&self) -> (secs: u64)
        ensures
            secs == attempt_timeout(self.retries()),
    {
        proof {
            use_type_invariant(self);
        }
        self.timeout_secs
    }

    /// Seconds waited in all for the attempts that timed out, or the largest
    /// number that fits where they are more.
    pub fn waited_secs(&self) -> (secs: u64)
        ensures
            secs == capped(total_wait(self.retries())),
    {
        proof {
            use_type_invariant(self);
        }
        self.waited_secs
    }

    /// The schedule after one more timeout: the time of the attempt that
    /// ended counts as waited, and the attempt that follows may take twice
    /// as long, or as long where the double does not fit. The count of the
    /// timeouts stops at the largest number that fits.
    pub fn after_timeout(&self) -> (next: Backoff)
        ensures
            next.retries() == if self.retries() < u32::MAX {
                self.retries() + 1
            } else {
                self.retries()
            },
    {
        let ghost r = self.retries as nat;
        proof {
            use_type_invariant(self);
            lemma_timeouts_grow(r);
            lemma_pow2_unfold(r + 2);
            if r > LAST_DOUBLING + 1 {
                lemma_wait_overflows(r);
            }
        }
        Backoff {
            retries: if self.retries < u32::MAX {
                self.retries + 1
            } else {
                self.retries
            },
            timeout_secs: if self.retries < LAST_DOUBLING {
                self.timeout_secs * 2
            } else {
                self.timeout_secs
            },
            waited_secs: if self.timeout_secs > u64::MAX - self.waited_secs {
                u64::MAX
            } else {
                self.waited_secs + self.timeout_secs
            },
        }
    }
}

/// What the bytes of a reply are read as: they must be UTF-8, and the text
/// that they hold a JSON-RPC response, which is then the outcome.
pub open spec fn response_decoded(body: Seq<u8>) -> Result<JrpcResponse, RpcTransportError> {
    if !valid_utf8(body) {
        Err(RpcTransportError::NotUtf8)
    } else {
        match json_response_of(decode_utf8(body)) {
            Some(response) => Ok(response),
            None => Err(RpcTransportError::BadResponse),
        }
    }
}

/// What `serde_json` made of a response text, as the result of a call.
pub fn response_from_parsed(parsed: Result<JrpcResponse, serde_json::Error>) -> (outcome: Result<
    JrpcResponse,
    RpcTransportError,
>)
    ensures
        match parsed {
            Ok(response) => outcome == Ok::<JrpcResponse, RpcTransportError>(response),
            Err(_) => outcome == Err::<JrpcResponse, RpcTransportError>(
                RpcTransportError::BadResponse,
            ),
        },
{
    match parsed {
        Ok(response) => Ok(response),
        Err(_) => Err(RpcTransportError::BadResponse),
    }
}

/// Reads the bytes of a reply, as `response_decoded` says.
pub fn decode_response(body: Vec<u8>) -> (outcome: Result<JrpcResponse, RpcTransportError>)
    ensures
        outcome == response_decoded(body@),
{
    match text_of_utf8(body) {
        Ok(text) => response_from_parsed(response_of_json(text.as_str())),
        Err(_) => Err(RpcTransportError::NotUtf8),
    }
}

impl GlobalRpcTransport {
    /// The relay that the requests go to.
    pub closed spec fn dest(&self) -> Fingerprint {
        self.dest
    }

    pub fn new(dest: Fingerprint) -> (transport: GlobalRpcTransport)
        ensures
            transport.dest() == dest,
    {
        GlobalRpcTransport { dest }
    }

    /// The endpoint that every request is sent to.
    pub fn endpoint(&self) -> (to: Endpoint)
        ensures
            to == (Endpoint { fingerprint: self.dest(), dock: GLOBAL_RPC_DOCK }),
    {
        Endpoint::new(self.dest, GLOBAL_RPC_DOCK)
    }

    /// Begins a call whose request was written as `encoded`, as
    /// `call_begins` says.
    pub fn call_encoded(
        &self,
        table: &mut DockTable,
        identity: Fingerprint,
        encoded: Result<String, serde_json::Error>,
    ) -> (call: Result<RpcCall, RpcTransportError>)
        ensures
            call_begins(
                self.dest(),
                identity,
                match encoded {
                    Ok(text) => Some(text@),
                    Err(_) => None,
                },
                old(table)@,
                final(table)@,
                call,
            ),
    {
        let text = match encoded {
            Ok(text) => text,
            Err(_) => {
                return Err(RpcTransportError::BadRequest);
            },
        };
        match N2rSocket::bind(table, identity, None) {
            Ok(socket) => {
                let payload = slice_to_vec(text.as_str().as_bytes());
                proof {
                    let taken = Endpoint { fingerprint: identity, dock: socket.local().dock };
                    assert(taken == socket.local());
                    assert(!old(table)@.contains(taken));
                    assert(!no_dock_left(old(table)@, identity));
                }
                Ok(RpcCall { socket, to: self.endpoint(), payload, backoff: Backoff::new() })
            },
            Err(_) => {
                assert(no_dock_left(old(table)@, identity));
                Err(RpcTransportError::NoSocket)
            },
        }
    }

    /// Begins a call: writes the request as JSON, binds a fresh socket for
    /// `identity` and sets up the first attempt, as `call_begins` says.
    pub fn call_raw(&self, table: &mut DockTable, identity: Fingerprint, req: &JrpcRequest) -> (call:
        Result<RpcCall, RpcTransportError>)
        ensures
            call_begins(
                self.dest(),
                identity,
                json_text_of_request(*req),
                old(table)@,
                final(table)@,
                call,
            ),
    {
        self.call_encoded(table, identity, json_of_request(req))
    }
}

impl RpcCall {
    /// The endpoint that the socket of the call is bound to.
    pub closed spec fn local(&self) -> Endpoint {
        self.socket.local()
    }

    /// The endpoint that the request goes to.
    pub closed spec fn to(&self) -> Endpoint {
        self.to
    }

    /// The local endpoint of the socket of the call.
    pub fn skt_info(&self) -> (ep: Endpoint)
        ensures
            ep == self.local(),
    {
        self.socket.skt_info()
    }

    /// Ends the call, however far it has come: its socket gives its dock
    /// back.
    pub fn close(self, table: &mut DockTable)
        ensures
            final(table)@ == old(table)@.remove(self.local()),
    {
        let local = self.socket.skt_info();
        table.unbind(&local);
    }

    /// The bytes of the request.
    pub closed spec fn payload(&self) -> Seq<u8> {
        self.payload@
    }

    /// How many attempts have timed out.
    pub closed spec fn retries(&self) -> nat {
        self.backoff.retries()
    }

    /// Where the schedule of the call stands.
    pub fn backoff(&self) -> (backoff: Backoff)
        ensures
            backoff.retries() == self.retries(),
    {
        self.backoff
    }

    /// What to send for the current attempt, and how long to wait for it.
    pub fn transmit(&self) -> (step: RpcStep)
        ensures
            step matches RpcStep::Transmit { to, payload, timeout_secs } && to == self.to()
                && payload@ == self.payload() && timeout_secs == attempt_timeout(self.retries()),
    {
        RpcStep::Transmit {
            to: self.to,
            payload: self.payload.clone(),
            timeout_secs: self.backoff.timeout_secs(),
        }
    }

    /// Feeds one event to the call. A timeout starts the next attempt, with
    /// the timeout that `attempt_timeout` gives it, over the same socket and
    /// with the same bytes; a response or a failure ends the call. There is
    /// no last attempt: the caller sets the deadline.
    pub fn on_event(&mut self, event: RpcEvent) -> (step: RpcStep)
        ensures
            final(self).local() == old(self).local(),
            final(self).to() == old(self).to(),
            final(self).payload() == old(self).payload(),
            match event {
                RpcEvent::TimedOut => {
                    &&& final(self).retries() == if old(self).retries() < u32::MAX {
                        old(self).retries() + 1
                    } else {
                        old(self).retries()
                    }
                    &&& step matches RpcStep::Transmit { to, payload, timeout_secs }
                    &&& to == old(self).to()
                    &&& payload@ == old(self).payload()
                    &&& timeout_secs == attempt_timeout(final(self).retries())
                },
                RpcEvent::Response(body) => {
                    &&& final(self).retries() == old(self).retries()
                    &&& step == RpcStep::Done(response_decoded(body@))
                },
                RpcEvent::RecvFailed => {
                    &&& final(self).retries() == old(self).retries()
                    &&& step == RpcStep::Done(Err(RpcTransportError::RecvFailed))
                },
                RpcEvent::SendFailed(e) => {
                    &&& final(self).retries() == old(self).retries()
                    &&& step == RpcStep::Done(Err(RpcTransportError::SendFailed(e)))
                },
            },
    {
        match event {
            RpcEvent::TimedOut => {
                self.backoff = self.backoff.after_timeout();
                self.transmit()
            },
            RpcEvent::Response(body) => RpcStep::Done(decode_response(body)),
            RpcEvent::RecvFailed => RpcStep::Done(Err(RpcTransportError::RecvFailed)),
            RpcEvent::SendFailed(e) => RpcStep::Done(Err(RpcTransportError::SendFailed(e))),
        }
    }
}

} // verus!
