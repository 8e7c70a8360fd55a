use vstd::prelude::*;
use std::collections::VecDeque;
use crate::addr::Fingerprint;
use crate::socket::{Dock, Endpoint, SocketBindError};

verus! {

/// The lowest dock that is handed out where the caller names none.
pub const EPHEMERAL_DOCK_MIN: Dock = 49152;

/// Whether `endpoint` occurs among `bound`.
pub open spec fn is_bound(bound: Seq<Endpoint>, endpoint: Endpoint) -> bool {
    exists|i: int| 0 <= i < bound.len() && bound[i] == endpoint
}

/// The endpoints that the sockets of one node are bound to.
pub struct DockTable {
    bound: Vec<Endpoint>,
}

impl View for DockTable {
    type V = Set<Endpoint>;

    closed spec fn view(&self) -> Set<Endpoint> {
        Set::new(|endpoint: Endpoint| is_bound(self.bound@, endpoint))
    }
}

impl DockTable {
    /// A table with no endpoint bound.
    pub fn new() -> (table: DockTable)
        ensures
            table@ == Set::<Endpoint>::empty(),
    {
        let table = DockTable { bound: Vec::new() };
        assert(table@ =~= Set::<Endpoint>::empty());
        table
    }

    /// Whether `endpoint` is bound.
    pub fn contains(&self, endpoint: &Endpoint) -> (found: bool)
        ensures
            found == self@.contains(*endpoint),
    {
        let mut i: usize = 0;
        while i < self.bound.len()
            invariant
                i <= self.bound@.len(),
                forall|j: int| 0 <= j < i ==> self.bound@[j] != *endpoint,
            decreases self.bound@.len() - i,
        {
            if self.bound[i] == *endpoint {
                return true;
            }
            i += 1;
        }
        false
    }

    /// The lowest dock from `EPHEMERAL_DOCK_MIN` up that `identity` has not
    /// bound, if there is one.
    pub fn free_ephemeral_dock(&self, identity: Fingerprint) -> (dock: Option<Dock>)
        ensures
            match dock {
                Some(d) => {
                    &&& d >= EPHEMERAL_DOCK_MIN
                    &&& !self@.contains(Endpoint { fingerprint: identity, dock: d })
                    &&& forall|e: u16|
                        EPHEMERAL_DOCK_MIN <= e < d ==> self@.contains(
                            Endpoint { fingerprint: identity, dock: e },
                        )
                },
                None => forall|e: u16|
                    EPHEMERAL_DOCK_MIN <= e ==> self@.contains(
                        Endpoint { fingerprint: identity, dock: e },
                    ),
            },
    {
        let mut d: u16 = EPHEMERAL_DOCK_MIN;
        loop
            invariant
                d >= EPHEMERAL_DOCK_MIN,
                forall|e: u16|
                    EPHEMERAL_DOCK_MIN <= e < d ==> self@.contains(
                        Endpoint { fingerprint: identity, dock: e },
                    ),
            decreases u16::MAX - d,
        {
            if !self.contains(&Endpoint::new(identity, d)) {
                return Some(d);
            }
            if d == u16::MAX {
                return None;
            }
            d += 1;
        }
    }

    /// Reserves `(identity, dock)`. Without a dock the lowest free one of the
    /// ephemeral range is taken. Fails with `DockInUse` where the endpoint is
    /// bound already, or where no ephemeral dock is left; the table is then
    /// unchanged.
    pub fn bind(&mut self, identity: Fingerprint, dock: Option<Dock>) -> (bound: Result<
        Endpoint,
        SocketBindError,
    >)
        ensures
            match bound {
                Ok(endpoint) => {
                    &&& endpoint.fingerprint == identity
                    &&& !old(self)@.contains(endpoint)
                    &&& final(self)@ == old(self)@.insert(endpoint)
                    &&& match dock {
                        Some(d) => endpoint.dock == d,
                        None => endpoint.dock >= EPHEMERAL_DOCK_MIN && forall|e: u16|
                            EPHEMERAL_DOCK_MIN <= e < endpoint.dock ==> old(self)@.contains(
                                Endpoint { fingerprint: identity, dock: e },
                            ),
                    }
                },
                Err(e) => {
                    &&& e == SocketBindError::DockInUse
                    &&& final(self)@ == old(self)@
                    &&& match dock {
                        Some(d) => old(self)@.contains(Endpoint { fingerprint: identity, dock: d }),
                        None => forall|e: u16|
                            EPHEMERAL_DOCK_MIN <= e ==> old(self)@.contains(
                                Endpoint { fingerprint: identity, dock: e },
                            ),
                    }
                },
            },
    {
        let chosen = match dock {
            Some(d) => if self.contains(&Endpoint::new(identity, d)) {
                None
            } else {
                Some(d)
            },
            None => self.free_ephemeral_dock(identity),
        };
        match chosen {
            Some(d) => {
                let endpoint = Endpoint::new(identity, d);
                self.bound.push(endpoint);
                proof {
                    assert(self.bound@[self.bound@.len() - 1] == endpoint);
                    assert forall|other: Endpoint|
                        is_bound(self.bound@, other) == (is_bound(old(self).bound@, other)
                            || other == endpoint) by {
                        if is_bound(old(self).bound@, other) {
                            let i = choose|i: int|
                                0 <= i < old(self).bound@.len() && old(self).bound@[i] == other;
                            assert(self.bound@[i] == other);
                        }
                    }
                    assert(self@ =~= old(self)@.insert(endpoint));
                }
                Ok(endpoint)
            },
            None => Err(SocketBindError::DockInUse),
        }
    }

    /// Gives an endpoint back. Says whether it was bound.
    pub fn unbind(&mut self, endpoint: &Endpoint) -> (was_bound: bool)
        ensures
            was_bound == old(self)@.contains(*endpoint),
            final(self)@ == old(self)@.remove(*endpoint),
    {
        let mut kept: Vec<Endpoint> = Vec::new();
        let mut found = false;
        let mut i: usize = 0;
        while i < self.bound.len()
            invariant
                i <= self.bound@.len(),
                found == exists|j: int| 0 <= j < i && self.bound@[j] == *endpoint,
                forall|other: Endpoint|
                    is_bound(kept@, other) == (other != *endpoint && exists|j: int|
                        0 <= j < i && self.bound@[j] == other),
            decreases self.bound@.len() - i,
        {
            let current = self.bound[i];
            if current == *endpoint {
                found = true;
                assert(self.bound@[i as int] == *endpoint);
            } else {
                let ghost before = kept@;
                kept.push(current);
                proof {
                    assert(kept@[kept@.len() - 1] == current);
                    assert forall|other: Endpoint|
                        is_bound(kept@, other) == (other != *endpoint && exists|j: int|
                            0 <= j < i + 1 && self.bound@[j] == other) by {
                        if is_bound(before, other) {
                            let k = choose|k: int| 0 <= k < before.len() && before[k] == other;
                            assert(kept@[k] == other);
                            let j = choose|j: int| 0 <= j < i && self.bound@[j] == other;
                            assert(0 <= j < i + 1 && self.bound@[j] == other);
                        }
                        if other == current {
                            assert(self.bound@[i as int] == other);
                        }
                        if is_bound(kept@, other) && !is_bound(before, other) {
                            let k = choose|k: int| 0 <= k < kept@.len() && kept@[k] == other;
                            assert(k == before.len());
                        }
                        if other != *endpoint && exists|j: int|
                            0 <= j < i + 1 && self.bound@[j] == other {
                            let j = choose|j: int| 0 <= j < i + 1 && self.bound@[j] == other;
                            if j < i {
                                assert(is_bound(before, other));
                            }
                        }
                    }
                }
            }
            i += 1;
        }
        proof {
            assert(Set::new(|other: Endpoint| is_bound(kept@, other)) =~= old(self)@.remove(
                *endpoint,
            ));
        }
        self.bound = kept;
        found
    }
}

/// An anonymous datagram endpoint, as far as it is known without I/O: the
/// endpoint that it has reserved.
#[derive(Debug)]
pub struct N2rSocket {
    local: Endpoint,
}

impl N2rSocket {
    /// The endpoint that the socket is bound to.
    pub closed spec fn local(&self) -> Endpoint {
        self.local
    }

    /// Binds a socket for `identity`: reserves the endpoint in `table` as
    /// `DockTable::bind` does, and fails as it does.
    pub fn bind(table: &mut DockTable, identity: Fingerprint, dock: Option<Dock>) -> (socket: Result<
        N2rSocket,
        SocketBindError,
    >)
        ensures
            match socket {
                Ok(s) => {
                    &&& s.local().fingerprint == identity
                    &&& !old(table)@.contains(s.local())
                    &&& final(table)@ == old(table)@.insert(s.local())
                    &&& match dock {
                        Some(d) => s.local().dock == d,
                        None => s.local().dock >= EPHEMERAL_DOCK_MIN && forall|e: u16|
                            EPHEMERAL_DOCK_MIN <= e < s.local().dock ==> old(table)@.contains(
                                Endpoint { fingerprint: identity, dock: e },
                            ),
                    }
                },
                Err(e) => {
                    &&& e == SocketBindError::DockInUse
                    &&& final(table)@ == old(table)@
                    &&& match dock {
                        Some(d) => old(table)@.contains(
                            Endpoint { fingerprint: identity, dock: d },
                        ),
                        None => forall|e: u16|
                            EPHEMERAL_DOCK_MIN <= e ==> old(table)@.contains(
                                Endpoint { fingerprint: identity, dock: e },
                            ),
                    }
                },
            },
    {
        match table.bind(identity, dock) {
            Ok(local) => Ok(N2rSocket { local }),
            Err(e) => Err(e),
        }
    }

    /// The local endpoint of the socket.
    pub fn skt_info(&self) -> (ep: Endpoint)
        ensures
            ep == self.local(),
    {
        self.local
    }
}

/// A return header that an anonymous peer built in advance. It serves for
/// one reply.
#[derive(Debug)]
pub struct ReplyBlock {
    pub id: u64,
    pub header: Vec<u8>,
}

/// The reply blocks that one anonymous peer has handed over, and the replies
/// that wait for one. A reply for which no block is left waits for the next
/// refill; none is dropped.
pub struct ReplyPool {
    blocks: VecDeque<ReplyBlock>,
    waiting: VecDeque<Vec<u8>>,
    low_water: usize,
    high_water: usize,
}

impl ReplyPool {
    /// The blocks at hand, oldest first.
    pub closed spec fn blocks(&self) -> Seq<ReplyBlock> {
        self.blocks@
    }

    /// The replies that wait for a block, oldest first.
    pub closed spec fn waiting(&self) -> Seq<Vec<u8>> {
        self.waiting@
    }

    /// The number of blocks under which the pool asks for more.
    pub closed spec fn low_water(&self) -> nat {
        self.low_water as nat
    }

    /// The number of blocks up to which a refill fills the pool.
    pub closed spec fn high_water(&self) -> nat {
        self.high_water as nat
    }

    /// How many fresh blocks the peer is to send: none while the pool holds
    /// as many as the low-water mark asks for, else what is missing up to the
    /// high-water mark, and one more for every reply that waits.
    pub open spec fn missing(&self) -> nat {
        if self.blocks().len() >= self.low_water() && self.waiting().len() == 0 {
            0
        } else if self.blocks().len() >= self.high_water() {
            self.waiting().len()
        } else {
            (self.high_water() - self.blocks().len() + self.waiting().len()) as nat
        }
    }

    /// No reply waits while a block is at hand.
    pub open spec fn wf(&self) -> bool {
        self.blocks().len() == 0 || self.waiting().len() == 0
    }

    /// An empty pool.
    pub fn new(low_water: usize, high_water: usize) -> (pool: ReplyPool)
        ensures
            pool.wf(),
            pool.blocks() == Seq::<ReplyBlock>::empty(),
            pool.waiting() == Seq::<Vec<u8>>::empty(),
            pool.low_water() == low_water,
            pool.high_water() == high_water,
    {
        ReplyPool { blocks: VecDeque::new(), waiting: VecDeque::new(), low_water, high_water }
    }

    /// How many fresh blocks the peer is to send, or `usize::MAX` where that
    /// many would be more.
    pub fn wanted(&self) -> (n: usize)
        ensures
            n == if self.missing() > usize::MAX {
                usize::MAX as nat
            } else {
                self.missing()
            },
    {
        let at_hand = self.blocks.len();
        let waiting = self.waiting.len();
        if at_hand >= self.low_water && waiting == 0 {
            0
        } else if at_hand >= self.high_water {
            waiting
        } else {
            let short = self.high_water - at_hand;
            if waiting > usize::MAX - short {
                usize::MAX
            } else {
                short + waiting
            }
        }
    }

    /// How many blocks are at hand.
    pub fn available(&self) -> (n: usize)
        ensures
            n == self.blocks().len(),
    {
        self.blocks.len()
    }

    /// How many replies wait for a block.
    pub fn pending(&self) -> (n: usize)
        ensures
            n == self.waiting().len(),
    {
        self.waiting.len()
    }

    /// Whether fewer blocks are at hand than the low-water mark asks for, so
    /// that the peer should send fresh ones.
    pub fn needs_refill(&self) -> (low: bool)
        ensures
            low == (self.blocks().len() < self.low_water()),
    {
        self.blocks.len() < self.low_water
    }

    /// Offers a reply. With a block at hand the oldest block is used up and
    /// the reply goes out with it; otherwise the reply waits, behind those
    /// that wait already.
    pub fn send(&mut self, body: Vec<u8>) -> (out: Option<(ReplyBlock, Vec<u8>)>)
        requires
            old(self).wf(),
        ensures
            final(self).wf(),
            final(self).low_water() == old(self).low_water(),
            final(self).high_water() == old(self).high_water(),
            if old(self).blocks().len() > 0 {
                &&& out == Some((old(self).blocks()[0], body))
                &&& final(self).blocks() == old(self).blocks().skip(1)
                &&& final(self).waiting() == old(self).waiting()
            } else {
                &&& out.is_none()
                &&& final(self).blocks() == old(self).blocks()
                &&& final(self).waiting() == old(self).waiting().push(body)
            },
    {
        match self.blocks.pop_front() {
            Some(block) => Some((block, body)),
            None => {
                self.waiting.push_back(body);
                None
            },
        }
    }

    /// Takes in one fresh block. Where a reply waits, the oldest one goes
    /// out with the block; otherwise the block is kept, behind those at hand.
    pub fn refill(&mut self, block: ReplyBlock) -> (out: Option<(ReplyBlock, Vec<u8>)>)
        requires
            old(self).wf(),
        ensures
            final(self).wf(),
            final(self).low_water() == old(self).low_water(),
            final(self).high_water() == old(self).high_water(),
            if old(self).waiting().len() > 0 {
                &&& out == Some((block, old(self).waiting()[0]))
                &&& final(self).waiting() == old(self).waiting().skip(1)
                &&& final(self).blocks() == old(self).blocks()
            } else {
                &&& out.is_none()
                &&& final(self).waiting() == old(self).waiting()
                &&& final(self).blocks() == old(self).blocks().push(block)
            },
    {
        match self.waiting.pop_front() {
            Some(body) => Some((block, body)),
            None => {
                self.blocks.push_back(block);
                None
            },
        }
    }
}

} // verus!
