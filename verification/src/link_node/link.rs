use vstd::prelude::*;
use crate::link_node::types::{LinkPaymentInfo, NeighborId};
use crate::socket::SocketSendError;

verus! {

/// Seconds that a link may stay over its debt limit before it is closed.
pub const DEFAULT_GRACE_SECS: u64 = 60;

/// Where a link stands in its life.
#[derive(Clone, Copy, Debug, PartialEq, Eq, Structural)]
pub enum LinkState {
    /// The two sides are proving their fingerprints to each other.
    Handshaking,
    /// Packets flow.
    Live,
    /// The next send would take the balance under the debt floor.
    Throttled,
    /// A settlement is under way.
    Settling,
    /// The link is gone.
    Closed,
}

/// Why a link was closed.
#[derive(Clone, Copy, Debug, PartialEq, Eq, Structural)]
pub enum CloseReason {
    /// The transport failed.
    Transport,
    /// The neighbour did not prove its fingerprint.
    AuthFailure,
    /// Settlement failed too often in a row.
    PaymentRefused,
    /// The link stayed at its debt limit for longer than the grace period.
    DebtOverdue,
}

/// How a link treats debt.
#[derive(Clone, Copy, Debug, PartialEq, Eq, Structural)]
pub struct LinkPolicy {
    /// How far from the debt limit the link already reacts.
    pub margin: i64,
    /// How many settlements may fail in a row before the link is closed.
    pub max_settle_failures: u32,
    /// Seconds that the link may stay throttled before it is closed.
    pub grace_secs: u64,
}

/// What became of a packet that was offered to a link for sending.
#[derive(Clone, Copy, Debug, PartialEq, Eq, Structural)]
pub enum LinkSend {
    /// The packet may be written; the local balance was debited by the price.
    Sent,
    /// The packet would take the balance under the debt floor: it waits, and
    /// a settlement is needed.
    SettlementNeeded,
    /// The link is waiting for a settlement: the packet waits too.
    Paused,
}

/// What became of a packet that arrived over a link.
#[derive(Clone, Copy, Debug, PartialEq, Eq, Structural)]
pub enum LinkRecv {
    /// The packet is taken and the balance credited by the price.
    Accepted,
    /// As `Accepted`; the balance is now over the credit ceiling, and credit
    /// is to be emitted through the payment system.
    CreditDue,
    /// The link takes no packets in its state.
    Dropped,
}

/// The balance under which a link does not go by sending.
pub open spec fn debt_floor(debt_limit: int, margin: int) -> int {
    -debt_limit + margin
}

/// The balance over which a link emits credit.
pub open spec fn credit_ceiling(debt_limit: int, margin: int) -> int {
    debt_limit - margin
}

/// Whether an amount fits the balance counter.
pub open spec fn fits(amount: int) -> bool {
    i64::MIN <= amount <= i64::MAX
}

/// One authenticated channel to one neighbour, as a state machine without
/// I/O: it keeps the state and the balance, and says what to do with each
/// packet.
#[derive(Clone, Copy)]
pub struct Link {
    neighbor: NeighborId,
    price: i64,
    debt_limit: i64,
    policy: LinkPolicy,
    state: LinkState,
    reason: Option<CloseReason>,
    balance: i64,
    failures: u32,
    throttled_secs: u64,
    sent: Ghost<nat>,
    received: Ghost<nat>,
    settled: Ghost<int>,
}

impl Link {
    #[verifier::type_invariant]
    spec fn well_formed(&self) -> bool {
        &&& self.balance == self.settled@ + (self.received@ - self.sent@) * self.price
        &&& self.state == LinkState::Closed <==> self.reason is Some
        &&& self.failures > 0 ==> self.state == LinkState::Settling || self.state
            == LinkState::Closed
        &&& self.state == LinkState::Settling ==> self.failures < self.policy.max_settle_failures
            || self.failures == 0
    }

    pub closed spec fn neighbor(&self) -> NeighborId {
        self.neighbor
    }

    /// What one packet costs.
    pub closed spec fn price(&self) -> int {
        self.price as int
    }

    pub closed spec fn debt_limit(&self) -> int {
        self.debt_limit as int
    }

    pub closed spec fn policy(&self) -> LinkPolicy {
        self.policy
    }

    pub closed spec fn state(&self) -> LinkState {
        self.state
    }

    /// Why the link was closed; `None` while it is not.
    pub closed spec fn close_reason(&self) -> Option<CloseReason> {
        self.reason
    }

    /// The running local balance.
    pub closed spec fn balance(&self) -> int {
        self.balance as int
    }

    /// How many packets were debited locally.
    pub closed spec fn sent(&self) -> nat {
        self.sent@
    }

    /// How many packets were credited.
    pub closed spec fn received(&self) -> nat {
        self.received@
    }

    /// The sum of the settlements.
    pub closed spec fn settled(&self) -> int {
        self.settled@
    }

    /// How many settlements have failed in a row.
    pub closed spec fn failures(&self) -> nat {
        self.failures as nat
    }

    /// Seconds that the link has been waiting for a settlement.
    pub closed spec fn throttled_secs(&self) -> nat {
        self.throttled_secs as nat
    }

    /// The balance under which the link does not go by sending.
    pub open spec fn floor(&self) -> int {
        debt_floor(self.debt_limit(), self.policy().margin as int)
    }

    /// The balance over which the link emits credit.
    pub open spec fn ceiling(&self) -> int {
        credit_ceiling(self.debt_limit(), self.policy().margin as int)
    }

    /// Everything but the state and the counters that a step may change.
    pub open spec fn same_terms(&self, other: &Link) -> bool {
        &&& self.neighbor() == other.neighbor()
        &&& self.price() == other.price()
        &&& self.debt_limit() == other.debt_limit()
        &&& self.policy() == other.policy()
    }

    /// What the link keeps of its wait for a settlement.
    pub open spec fn same_wait(&self, other: &Link) -> bool {
        &&& self.failures() == other.failures()
        &&& self.throttled_secs() == other.throttled_secs()
    }

    /// The counters of the ledger.
    pub open spec fn same_ledger(&self, other: &Link) -> bool {
        &&& self.balance() == other.balance()
        &&& self.sent() == other.sent()
        &&& self.received() == other.received()
        &&& self.settled() == other.settled()
    }

    /// A link whose handshake has begun, with nothing sent or owed.
    pub fn new(neighbor: NeighborId, info: &LinkPaymentInfo, policy: LinkPolicy) -> (link: Link)
        ensures
            link.neighbor() == neighbor,
            link.price() == info.price,
            link.debt_limit() == info.debt_limit,
            link.policy() == policy,
            link.state() == LinkState::Handshaking,
            link.close_reason().is_none(),
            link.balance() == 0,
            link.sent() == 0,
            link.received() == 0,
            link.settled() == 0,
            link.failures() == 0,
            link.throttled_secs() == 0,
    {
        assert((0nat - 0nat) * info.price == 0) by (nonlinear_arith);
        Link {
            neighbor,
            price: info.price,
            debt_limit: info.debt_limit,
            policy,
            state: LinkState::Handshaking,
            reason: None,
            balance: 0,
            failures: 0,
            throttled_secs: 0,
            sent: Ghost(0),
            received: Ghost(0),
            settled: Ghost(0),
        }
    }

    /// Who is at the other end.
    pub fn neighbor_id(&self) -> (neighbor: NeighborId)
        ensures
            neighbor == self.neighbor(),
    {
        self.neighbor
    }

    /// Where the link stands.
    pub fn current_state(&self) -> (state: LinkState)
        ensures
            state == self.state(),
            state == LinkState::Closed <==> self.close_reason() is Some,
    {
        proof {
            use_type_invariant(self);
        }
        self.state
    }

    /// Why the link was closed.
    pub fn why_closed(&self) -> (reason: Option<CloseReason>)
        ensures
            reason == self.close_reason(),
    {
        self.reason
    }

    /// The running balance. It is the sum of the settlements, plus the price
    /// for every packet received, minus the price for every packet sent.
    pub fn current_balance(&self) -> (balance: i64)
        ensures
            balance == self.balance(),
            balance == self.settled() + (self.received() - self.sent()) * self.price(),
            self.received() == 0 && self.settled() == 0 ==> -balance == self.sent() * self.price(),
    {
        proof {
            use_type_invariant(self);
            assert((0 - self.sent@) * self.price == -(self.sent@ * self.price))
                by (nonlinear_arith);
        }
        self.balance
    }

    /// The price of a packet and the debt limit of the link.
    pub fn terms(&self) -> (terms: (i64, i64, LinkPolicy))
        ensures
            terms.0 == self.price(),
            terms.1 == self.debt_limit(),
            terms.2 == self.policy(),
    {
        (self.price, self.debt_limit, self.policy)
    }

    /// Whether the balance counter can take the debit of the next `send`, so
    /// that `send` may be called.
    pub fn send_fits(&self) -> (yes: bool)
        ensures
            yes == (self.state() == LinkState::Live && self.balance() - self.price()
                >= self.floor() ==> fits(self.balance() - self.price())),
    {
        match self.state {
            LinkState::Live => {
                let after: i128 = self.balance as i128 - self.price as i128;
                let floor: i128 = -(self.debt_limit as i128) + self.policy.margin as i128;
                after < floor || (after >= i64::MIN as i128 && after <= i64::MAX as i128)
            },
            _ => true,
        }
    }

    /// Whether the balance counter can take the credit of the next
    /// `on_receive`, so that `on_receive` may be called.
    pub fn receive_fits(&self) -> (yes: bool)
        ensures
            yes == (self.state() != LinkState::Handshaking && self.state() != LinkState::Closed
                ==> fits(self.balance() + self.price())),
    {
        match self.state {
            LinkState::Handshaking => true,
            LinkState::Closed => true,
            _ => {
                let after: i128 = self.balance as i128 + self.price as i128;
                after >= i64::MIN as i128 && after <= i64::MAX as i128
            },
        }
    }

    /// Whether the balance counter can take a settlement of `amount`, so
    /// that `settlement_succeeded` may be called with it.
    pub fn settlement_fits(&self, amount: i64) -> (yes: bool)
        ensures
            yes == (self.state() == LinkState::Settling ==> fits(self.balance() + amount)),
    {
        match self.state {
            LinkState::Settling => {
                let after: i128 = self.balance as i128 + amount as i128;
                after >= i64::MIN as i128 && after <= i64::MAX as i128
            },
            _ => true,
        }
    }

    /// The end of the handshake. A verified handshake makes the link live, a
    /// failed one closes it; later reports change nothing.
    pub fn on_handshake(&mut self, verified: bool)
        ensures
            final(self).same_terms(old(self)),
            final(self).same_ledger(old(self)),
            final(self).same_wait(old(self)),
            final(self).state() == if old(self).state() != LinkState::Handshaking {
                old(self).state()
            } else if verified {
                LinkState::Live
            } else {
                LinkState::Closed
            },
            final(self).close_reason() == if old(self).state() == LinkState::Handshaking
                && !verified {
                Some(CloseReason::AuthFailure)
            } else {
                old(self).close_reason()
            },
    {
        proof {
            use_type_invariant(&*self);
        }
        match self.state {
            LinkState::Handshaking => {
                if verified {
                    *self = Link { state: LinkState::Live, ..*self };
                } else {
                    *self = Link {
                        state: LinkState::Closed,
                        reason: Some(CloseReason::AuthFailure),
                        ..*self
                    };
                }
            },
            _ => {},
        }
    }

    /// A failure of the transport closes the link, whatever its state. A link
    /// that is closed already keeps its reason.
    pub fn on_transport_error(&mut self)
        ensures
            final(self).same_terms(old(self)),
            final(self).same_ledger(old(self)),
            final(self).same_wait(old(self)),
            final(self).state() == LinkState::Closed,
            final(self).close_reason() == if old(self).state() == LinkState::Closed {
                old(self).close_reason()
            } else {
                Some(CloseReason::Transport)
            },
    {
        proof {
            use_type_invariant(&*self);
        }
        match self.state {
            LinkState::Closed => {},
            _ => {
                *self = Link {
                    state: LinkState::Closed,
                    reason: Some(CloseReason::Transport),
                    ..*self
                };
            },
        }
    }

    /// A frame that fails authentication closes the link, whatever its
    /// state. A link that is closed already keeps its reason.
    pub fn on_auth_failure(&mut self)
        ensures
            final(self).same_terms(old(self)),
            final(self).same_ledger(old(self)),
            final(self).same_wait(old(self)),
            final(self).state() == LinkState::Closed,
            final(self).close_reason() == if old(self).state() == LinkState::Closed {
                old(self).close_reason()
            } else {
                Some(CloseReason::AuthFailure)
            },
    {
        proof {
            use_type_invariant(&*self);
        }
        match self.state {
            LinkState::Closed => {},
            _ => {
                *self = Link {
                    state: LinkState::Closed,
                    reason: Some(CloseReason::AuthFailure),
                    ..*self
                };
            },
        }
    }

    /// Offers one packet for sending. A live link sends it and debits the
    /// price, unless that would take the balance under the debt floor: then
    /// the link is throttled and the packet waits. While a settlement is
    /// awaited every packet waits. A link that is not up has no route; one
    /// that was closed over its debt refuses.
    pub fn send(&mut self) -> (outcome: Result<LinkSend, SocketSendError>)
        requires
            old(self).state() == LinkState::Live && old(self).balance() - old(self).price()
                >= old(self).floor() ==> fits(old(self).balance() - old(self).price()),
        ensures
            final(self).same_terms(old(self)),
            final(self).received() == old(self).received(),
            final(self).settled() == old(self).settled(),
            final(self).close_reason() == old(self).close_reason(),
            match old(self).state() {
                LinkState::Live => if old(self).balance() - old(self).price() < old(self).floor() {
                    &&& outcome == Ok::<LinkSend, SocketSendError>(LinkSend::SettlementNeeded)
                    &&& final(self).state() == LinkState::Throttled
                    &&& final(self).balance() == old(self).balance()
                    &&& final(self).sent() == old(self).sent()
                    &&& final(self).failures() == 0
                    &&& final(self).throttled_secs() == 0
                } else {
                    &&& outcome == Ok::<LinkSend, SocketSendError>(LinkSend::Sent)
                    &&& final(self).state() == LinkState::Live
                    &&& final(self).balance() == old(self).balance() - old(self).price()
                    &&& final(self).sent() == old(self).sent() + 1
                    &&& final(self).same_wait(old(self))
                },
                LinkState::Throttled | LinkState::Settling => {
                    &&& outcome == Ok::<LinkSend, SocketSendError>(LinkSend::Paused)
                    &&& final(self).state() == old(self).state()
                    &&& final(self).same_ledger(old(self))
                    &&& final(self).same_wait(old(self))
                },
                LinkState::Handshaking => {
                    &&& outcome == Err::<LinkSend, SocketSendError>(SocketSendError::NoRoute)
                    &&& final(self).state() == old(self).state()
                    &&& final(self).same_ledger(old(self))
                    &&& final(self).same_wait(old(self))
                },
                LinkState::Closed => {
                    &&& outcome == Err::<LinkSend, SocketSendError>(
                        if old(self).close_reason() == Some(CloseReason::PaymentRefused)
                            || old(self).close_reason() == Some(CloseReason::DebtOverdue) {
                            SocketSendError::PaymentRefused
                        } else {
                            SocketSendError::NoRoute
                        },
                    )
                    &&& final(self).state() == old(self).state()
                    &&& final(self).same_ledger(old(self))
                    &&& final(self).same_wait(old(self))
                },
            },
    {
        proof {
            use_type_invariant(&*self);
        }
        match self.state {
            LinkState::Live => {
                let after: i128 = self.balance as i128 - self.price as i128;
                let floor: i128 = -(self.debt_limit as i128) + self.policy.margin as i128;
                if after < floor {
                    *self = Link { state: LinkState::Throttled, throttled_secs: 0, ..*self };
                    Ok(LinkSend::SettlementNeeded)
                } else {
                    let ghost sent = self.sent@ + 1;
                    proof {
                        assert((self.received@ - sent) * self.price == (self.received@
                            - self.sent@) * self.price - self.price) by (nonlinear_arith)
                            requires
                                sent == self.sent@ + 1,
                        ;
                    }
                    *self = Link { balance: after as i64, sent: Ghost(sent), ..*self };
                    Ok(LinkSend::Sent)
                }
            },
            LinkState::Throttled => Ok(LinkSend::Paused),
            LinkState::Settling => Ok(LinkSend::Paused),
            LinkState::Handshaking => Err(SocketSendError::NoRoute),
            LinkState::Closed => match self.reason {
                Some(CloseReason::PaymentRefused) => Err(SocketSendError::PaymentRefused),
                Some(CloseReason::DebtOverdue) => Err(SocketSendError::PaymentRefused),
                _ => Err(SocketSendError::NoRoute),
            },
        }
    }
    /// Takes one packet that arrived. A link that is up credits the price,
    /// and says so when the balance has gone over the credit ceiling; a link
    /// that is not up drops the packet.
    pub fn on_receive(&mut self) -> (outcome: LinkRecv)
        requires
            old(self).state() != LinkState::Handshaking && old(self).state() != LinkState::Closed
                ==> fits(old(self).balance() + old(self).price()),
        ensures
            final(self).same_terms(old(self)),
            final(self).same_wait(old(self)),
            final(self).state() == old(self).state(),
            final(self).close_reason() == old(self).close_reason(),
            final(self).sent() == old(self).sent(),
            final(self).settled() == old(self).settled(),
            if old(self).state() == LinkState::Handshaking || old(self).state()
                == LinkState::Closed {
                &&& outcome == LinkRecv::Dropped
                &&& final(self).same_ledger(old(self))
            } else {
                &&& final(self).balance() == old(self).balance() + old(self).price()
                &&& final(self).received() == old(self).received() + 1
                &&& outcome == if final(self).balance() > old(self).ceiling() {
                    LinkRecv::CreditDue
                } else {
                    LinkRecv::Accepted
                }
            },
    {
        proof {
            use_type_invariant(&*self);
        }
        match self.state {
            LinkState::Handshaking => LinkRecv::Dropped,
            LinkState::Closed => LinkRecv::Dropped,
            _ => {
                let after: i128 = self.balance as i128 + self.price as i128;
                let ceiling: i128 = self.debt_limit as i128 - self.policy.margin as i128;
                let ghost received = self.received@ + 1;
                proof {
                    assert((received - self.sent@) * self.price == (self.received@ - self.sent@)
                        * self.price + self.price) by (nonlinear_arith)
                        requires
                            received == self.received@ + 1,
                    ;
                }
                *self = Link { balance: after as i64, received: Ghost(received), ..*self };
                if after > ceiling {
                    LinkRecv::CreditDue
                } else {
                    LinkRecv::Accepted
                }
            },
        }
    }

    /// The beginning of a settlement attempt: a throttled link goes on to
    /// settling. Says whether it did.
    pub fn begin_settlement(&mut self) -> (begun: bool)
        ensures
            final(self).same_terms(old(self)),
            final(self).same_ledger(old(self)),
            final(self).same_wait(old(self)),
            final(self).close_reason() == old(self).close_reason(),
            begun == (old(self).state() == LinkState::Throttled),
            final(self).state() == if begun {
                LinkState::Settling
            } else {
                old(self).state()
            },
    {
        proof {
            use_type_invariant(&*self);
        }
        match self.state {
            LinkState::Throttled => {
                *self = Link { state: LinkState::Settling, ..*self };
                true
            },
            _ => false,
        }
    }

    /// A settlement of `amount` went through: a settling link is credited and
    /// is live again. In any other state nothing changes.
    pub fn settlement_succeeded(&mut self, amount: i64)
        requires
            old(self).state() == LinkState::Settling ==> fits(old(self).balance() + amount),
        ensures
            final(self).same_terms(old(self)),
            final(self).close_reason() == old(self).close_reason(),
            final(self).sent() == old(self).sent(),
            final(self).received() == old(self).received(),
            if old(self).state() == LinkState::Settling {
                &&& final(self).state() == LinkState::Live
                &&& final(self).balance() == old(self).balance() + amount
                &&& final(self).settled() == old(self).settled() + amount
                &&& final(self).failures() == 0
                &&& final(self).throttled_secs() == 0
            } else {
                &&& final(self).state() == old(self).state()
                &&& final(self).same_ledger(old(self))
                &&& final(self).same_wait(old(self))
            },
    {
        proof {
            use_type_invariant(&*self);
        }
        match self.state {
            LinkState::Settling => {
                let ghost settled = self.settled@ + amount;
                *self = Link {
                    state: LinkState::Live,
                    balance: self.balance + amount,
                    failures: 0,
                    throttled_secs: 0,
                    settled: Ghost(settled),
                    ..*self
                };
            },
            _ => {},
        }
    }

    /// A settlement attempt failed. A settling link counts the failure, and
    /// is closed with `PaymentRefused` once as many have failed in a row as
    /// its policy allows. Says whether the link was closed by this failure.
    pub fn settlement_failed(&mut self) -> (refused: bool)
        ensures
            final(self).same_terms(old(self)),
            final(self).same_ledger(old(self)),
            final(self).throttled_secs() == old(self).throttled_secs(),
            if old(self).state() == LinkState::Settling {
                &&& final(self).failures() == old(self).failures() + 1
                &&& refused == (old(self).failures() + 1 >= old(self).policy().max_settle_failures)
                &&& final(self).state() == if refused {
                    LinkState::Closed
                } else {
                    LinkState::Settling
                }
                &&& final(self).close_reason() == if refused {
                    Some(CloseReason::PaymentRefused)
                } else {
                    None
                }
            } else {
                &&& !refused
                &&& final(self).state() == old(self).state()
                &&& final(self).close_reason() == old(self).close_reason()
                &&& final(self).failures() == old(self).failures()
            },
    {
        proof {
            use_type_invariant(&*self);
        }
        match self.state {
            LinkState::Settling => {
                let failures = self.failures + 1;
                if failures >= self.policy.max_settle_failures {
                    *self = Link {
                        state: LinkState::Closed,
                        reason: Some(CloseReason::PaymentRefused),
                        failures,
                        ..*self
                    };
                    true
                } else {
                    *self = Link { failures, ..*self };
                    false
                }
            },
            _ => false,
        }
    }

    /// Time went by. A link that waits for a settlement adds the seconds to
    /// its wait (up to the largest number that fits), and is closed once it
    /// has waited longer than the grace period. Says whether the link was
    /// closed by this.
    pub fn on_tick(&mut self, elapsed_secs: u64) -> (overdue: bool)
        ensures
            final(self).same_terms(old(self)),
            final(self).same_ledger(old(self)),
            final(self).failures() == old(self).failures(),
            if old(self).state() == LinkState::Throttled || old(self).state()
                == LinkState::Settling {
                &&& final(self).throttled_secs() == if old(self).throttled_secs() + elapsed_secs
                    > u64::MAX {
                    u64::MAX as int
                } else {
                    old(self).throttled_secs() + elapsed_secs
                }
                &&& overdue == (final(self).throttled_secs() > old(self).policy().grace_secs)
                &&& final(self).state() == if overdue {
                    LinkState::Closed
                } else {
                    old(self).state()
                }
                &&& final(self).close_reason() == if overdue {
                    Some(CloseReason::DebtOverdue)
                } else {
                    None
                }
            } else {
                &&& !overdue
                &&& final(self).state() == old(self).state()
                &&& final(self).close_reason() == old(self).close_reason()
                &&& final(self).throttled_secs() == old(self).throttled_secs()
            },
    {
        proof {
            use_type_invariant(&*self);
        }
        match self.state {
            LinkState::Throttled | LinkState::Settling => {
                let throttled_secs = if elapsed_secs > u64::MAX - self.throttled_secs {
                    u64::MAX
                } else {
                    self.throttled_secs + elapsed_secs
                };
                if throttled_secs > self.policy.grace_secs {
                    *self = Link {
                        state: LinkState::Closed,
                        reason: Some(CloseReason::DebtOverdue),
                        throttled_secs,
                        ..*self
                    };
                    true
                } else {
                    *self = Link { throttled_secs, ..*self };
                    false
                }
            },
            _ => false,
        }
    }
}

} // verus!
