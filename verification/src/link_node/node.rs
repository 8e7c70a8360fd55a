use vstd::prelude::*;
use dashmap::DashMap;
use vstd::bytes::{spec_u128_from_le_bytes, u128_from_le_bytes};
use vstd::slice::slice_subrange;
use crate::addr::{AnonEndpoint, Fingerprint};
use crate::link_node::cooldown::{cooldown_after_failure, cooldown_after_reconnect, Cooldown};
use crate::link_node::link::Link;
use crate::link_node::replay::NonceWindow;
use crate::link_node::types::{IncomingMsg, LinkConfig, NeighborId};
use crate::socket::SocketSendError;

verus! {

/// How many leading bytes of a packet serve as its nonce.
pub const NONCE_LEN: usize = 16;

/// Whom a delivered payload claims to come from.
#[derive(Clone, Copy, Debug)]
pub enum FromTag {
    /// An anonymous sender, on a forward path.
    Anon(AnonEndpoint),
    /// The reply block that the sender used.
    ReplyBlock(u64),
}

/// What peeling one layer off a packet revealed.
#[derive(Debug)]
pub enum PeelResult {
    /// The packet goes on to `next_hop`.
    Forward { next_hop: Fingerprint, remainder: Vec<u8> },
    /// The packet ends here.
    Deliver { payload: Vec<u8>, from_tag: FromTag },
    /// The MAC failed, the packet is truncated, or its version is unknown.
    Invalid,
}

/// What the node does with a packet that came in.
#[derive(Debug)]
pub enum Dispatch {
    /// Send `packet` on to `next_hop`.
    Relay { next_hop: Fingerprint, packet: Vec<u8> },
    /// Put the message into the queue of the local sockets.
    Local(IncomingMsg),
    /// Drop the packet without a word.
    Dropped,
}

/// How the node gets a packet to its next hop.
#[derive(Clone, Copy)]
pub enum Route {
    /// Over the link to the next hop that the link table holds.
    Link(Link),
    /// There is no link yet, but the next hop is an out-route target: dial it.
    Dial(Fingerprint),
    /// There is no link, and none can be made.
    NoRoute,
}

/// The nonce of a packet: its first 128 bits, read as a number. A packet
/// that is shorter has none.
pub open spec fn nonce_of(packet: Seq<u8>) -> Option<u128> {
    if packet.len() >= NONCE_LEN {
        Some(spec_u128_from_le_bytes(packet.subrange(0, NONCE_LEN as int)))
    } else {
        None
    }
}

/// Where a peeled packet goes.
pub open spec fn dispatch_of(peeled: PeelResult) -> Dispatch {
    match peeled {
        PeelResult::Forward { next_hop, remainder } => Dispatch::Relay {
            next_hop,
            packet: remainder,
        },
        PeelResult::Deliver { payload, from_tag: FromTag::Anon(from) } => Dispatch::Local(
            IncomingMsg::Forward { from, body: payload },
        ),
        PeelResult::Deliver { payload, from_tag: FromTag::ReplyBlock(rb_id) } => Dispatch::Local(
            IncomingMsg::Backward { rb_id, body: payload },
        ),
        PeelResult::Invalid => Dispatch::Dropped,
    }
}

/// A concurrent hash map, carried through behind the wrappers below.
#[verifier::external_type_specification]
#[verifier::external_body]
#[verifier::reject_recursive_types(K)]
#[verifier::reject_recursive_types(V)]
#[verifier::reject_recursive_types(S)]
pub struct ExDashMap<K, V, S>(DashMap<K, V, S>);

/// The link table of a node.
pub type LinkTable = DashMap<NeighborId, Link>;

/// What a link table holds: the link of every neighbour that has one.
pub uninterp spec fn link_table(table: LinkTable) -> Map<NeighborId, Link>;

/// What a table without links holds.
pub open spec fn empty_table() -> Map<NeighborId, Link> {
    Map::empty()
}

/// Calls `DashMap::new`: a table that holds nothing.
#[verifier::external_body]
fn table_new() -> (table: LinkTable)
    ensures
        link_table(table) == empty_table(),
{
    DashMap::new()
}

/// Calls `DashMap::get` and copies the link out of the guard: the link that
/// the table holds for the neighbour, if it holds one.
#[verifier::external_body]
fn table_get(table: &LinkTable, neighbor: &NeighborId) -> (found: Option<Link>)
    ensures
        match found {
            Some(link) => link_table(*table).dom().contains(*neighbor) && link_table(
                *table,
            )[*neighbor] == link,
            None => !link_table(*table).dom().contains(*neighbor),
        },
{
    match table.get(neighbor) {
        Some(entry) => Some(*entry),
        None => None,
    }
}

/// Calls `DashMap::insert`: the table then holds the link for the neighbour,
/// in place of what it held for it, and everything else as before.
#[verifier::external_body]
fn table_insert(table: &mut LinkTable, neighbor: NeighborId, link: Link)
    ensures
        link_table(*final(table)) == link_table(*old(table)).insert(neighbor, link),
{
    table.insert(neighbor, link);
}

/// Calls `DashMap::remove`: the table then holds nothing for the neighbour,
/// and everything else as before. Returns whether it held something.
#[verifier::external_body]
fn table_remove(table: &mut LinkTable, neighbor: &NeighborId) -> (removed: bool)
    ensures
        removed == link_table(*old(table)).dom().contains(*neighbor),
        link_table(*final(table)) == link_table(*old(table)).remove(*neighbor),
{
    table.remove(neighbor).is_some()
}

/// Calls `DashMap::len`: how many neighbours the table holds a link for.
#[verifier::external_body]
fn table_len(table: &LinkTable) -> (n: usize)
    ensures
        n == link_table(*table).dom().len(),
{
    table.len()
}

/// What the node remembers of a neighbour whose link failed: how long it
/// leaves the neighbour alone, and until when.
#[derive(Clone, Copy, Debug)]
pub struct Strike {
    pub neighbor: NeighborId,
    pub cooldown: Cooldown,
    /// The second from which the neighbour may be dialled again.
    pub until: u64,
}

/// Whether `at` is the place of the first strike against `neighbor`.
pub open spec fn is_first_strike(strikes: Seq<Strike>, neighbor: NeighborId, at: int) -> bool {
    &&& 0 <= at < strikes.len()
    &&& strikes[at].neighbor == neighbor
    &&& forall|j: int| 0 <= j < at ==> (#[trigger] strikes[j]).neighbor != neighbor
}

/// Whether `strikes` holds nothing against `neighbor`.
pub open spec fn no_strike(strikes: Seq<Strike>, neighbor: NeighborId) -> bool {
    forall|j: int| 0 <= j < strikes.len() ==> (#[trigger] strikes[j]).neighbor != neighbor
}

/// Whether `neighbor` is left alone at the second `now`.
pub open spec fn cooling(strikes: Seq<Strike>, neighbor: NeighborId, now: u64) -> bool {
    exists|i: int| is_first_strike(strikes, neighbor, i) && now < strikes[i].until
}

/// The second at which a cooldown of `secs` that begins at `now` is over, or
/// the last second that can be told.
pub open spec fn cooldown_end(now: u64, secs: nat) -> u64 {
    if now + secs > u64::MAX {
        u64::MAX
    } else {
        (now + secs) as u64
    }
}

/// Reads the nonce of a packet.
pub fn packet_nonce(packet: &[u8]) -> (nonce: Option<u128>)
    ensures
        nonce == nonce_of(packet@),
{
    if packet.len() >= NONCE_LEN {
        Some(u128_from_le_bytes(slice_subrange(packet, 0, NONCE_LEN)))
    } else {
        None
    }
}

/// The replay defence of a link: what is left of a peel result once the
/// packet has been held against the nonce window of the neighbour. A packet
/// that did not peel stays invalid and leaves the window alone. One that is
/// too short for a nonce, or whose nonce the window remembers, is invalid
/// too. Any other packet passes, and its nonce is remembered.
pub fn filter_replay(window: &mut NonceWindow, packet: &[u8], peeled: PeelResult) -> (out:
    PeelResult)
    ensures
        final(window).width() == old(window).width(),
        match (peeled, nonce_of(packet@)) {
            (PeelResult::Invalid, _) => out == PeelResult::Invalid && final(window).admitted()
                == old(window).admitted(),
            (_, None) => out == PeelResult::Invalid && final(window).admitted() == old(window).admitted(),
            (_, Some(nonce)) => if old(window).window().contains(nonce) {
                out == PeelResult::Invalid && final(window).admitted() == old(window).admitted()
            } else {
                out == peeled && final(window).admitted() == old(window).admitted().push(nonce)
            },
        },
{
    match peeled {
        PeelResult::Invalid => PeelResult::Invalid,
        _ => match packet_nonce(packet) {
            Some(nonce) => if window.offer(nonce) {
                peeled
            } else {
                PeelResult::Invalid
            },
            None => PeelResult::Invalid,
        },
    }
}

/// Hands a peeled packet on: to the next hop, to the local queue, or nowhere.
pub fn dispatch(peeled: PeelResult) -> (out: Dispatch)
    ensures
        out == dispatch_of(peeled),
{
    match peeled {
        PeelResult::Forward { next_hop, remainder } => Dispatch::Relay { next_hop, packet: remainder },
        PeelResult::Deliver { payload, from_tag } => match from_tag {
            FromTag::Anon(from) => Dispatch::Local(IncomingMsg::Forward { from, body: payload }),
            FromTag::ReplyBlock(rb_id) => Dispatch::Local(
                IncomingMsg::Backward { rb_id, body: payload },
            ),
        },
        PeelResult::Invalid => Dispatch::Dropped,
    }
}

/// The node's side of the link layer: its configuration and its link table.
pub struct LinkNode {
    config: LinkConfig,
    links: LinkTable,
    strikes: Vec<Strike>,
}

impl LinkNode {
    /// The link table: the link of every neighbour that has one.
    pub closed spec fn links(&self) -> Map<NeighborId, Link> {
        link_table(self.links)
    }

    /// What the node was set up with.
    pub closed spec fn config(&self) -> LinkConfig {
        self.config
    }

    /// The neighbours whose links failed, in the order of their first
    /// failure.
    pub closed spec fn strikes(&self) -> Seq<Strike> {
        self.strikes@
    }

    /// A node without links.
    pub fn new(config: LinkConfig) -> (node: LinkNode)
        ensures
            node.config() == config,
            node.links() == Map::<NeighborId, Link>::empty(),
            node.strikes() == Seq::<Strike>::empty(),
    {
        LinkNode { config, links: table_new(), strikes: Vec::new() }
    }

    /// The place of the first strike against `neighbor`.
    pub fn find_strike(&self, neighbor: &NeighborId) -> (at: Option<usize>)
        ensures
            match at {
                Some(i) => is_first_strike(self.strikes(), *neighbor, i as int),
                None => no_strike(self.strikes(), *neighbor),
            },
    {
        let mut i: usize = 0;
        while i < self.strikes.len()
            invariant
                i <= self.strikes@.len(),
                forall|j: int| 0 <= j < i ==> (#[trigger] self.strikes@[j]).neighbor != *neighbor,
            decreases self.strikes@.len() - i,
        {
            if self.strikes[i].neighbor == *neighbor {
                return Some(i);
            }
            i += 1;
        }
        None
    }

    /// Whether `neighbor` is left alone at the second `now`, because a link
    /// to it failed and its cooldown is not over.
    pub fn is_cooling(&self, neighbor: &NeighborId, now: u64) -> (yes: bool)
        ensures
            yes == cooling(self.strikes(), *neighbor, now),
    {
        match self.find_strike(neighbor) {
            Some(i) => {
                let yes = now < self.strikes[i].until;
                proof {
                    if cooling(self.strikes(), *neighbor, now) {
                        let k = choose|k: int|
                            is_first_strike(self.strikes(), *neighbor, k) && now
                                < self.strikes()[k].until;
                        assert(k == i);
                    }
                }
                yes
            },
            None => false,
        }
    }

    /// A link to `neighbor` failed at the second `now`: the neighbour is
    /// left alone for the cooldown that follows the failure, which is the
    /// base after a first failure and twice the last one after another, up
    /// to the cap. Returns the second at which the cooldown is over.
    pub fn on_link_failure(&mut self, neighbor: NeighborId, now: u64) -> (until: u64)
        ensures
            final(self).config() == old(self).config(),
            final(self).links() == old(self).links(),
            if no_strike(old(self).strikes(), neighbor) {
                &&& until == cooldown_end(now, cooldown_after_failure(0))
                &&& final(self).strikes().len() == old(self).strikes().len() + 1
                &&& final(self).strikes().drop_last() == old(self).strikes()
                &&& final(self).strikes().last().neighbor == neighbor
                &&& final(self).strikes().last().cooldown.secs() == cooldown_after_failure(0)
                &&& final(self).strikes().last().until == until
            } else {
                exists|i: int|
                    {
                        &&& is_first_strike(old(self).strikes(), neighbor, i)
                        &&& until == cooldown_end(
                            now,
                            cooldown_after_failure(old(self).strikes()[i].cooldown.secs()),
                        )
                        &&& final(self).strikes().len() == old(self).strikes().len()
                        &&& forall|j: int|
                            0 <= j < old(self).strikes().len() && j != i ==> final(self).strikes()[j] == old(self).strikes()[j]
                        &&& final(self).strikes()[i].neighbor == neighbor
                        &&& final(self).strikes()[i].cooldown.secs() == cooldown_after_failure(
                            old(self).strikes()[i].cooldown.secs(),
                        )
                        &&& final(self).strikes()[i].until == until
                    }
            },
    {
        let at = self.find_strike(&neighbor);
        let mut cooldown = match at {
            Some(i) => self.strikes[i].cooldown,
            None => Cooldown::new(),
        };
        let secs = cooldown.on_failure();
        let until = if secs > u64::MAX - now {
            u64::MAX
        } else {
            now + secs
        };
        let strike = Strike { neighbor, cooldown, until };
        match at {
            Some(i) => {
                self.strikes[i] = strike;
                assert(is_first_strike(old(self).strikes(), neighbor, i as int));
            },
            None => {
                self.strikes.push(strike);
                assert(self.strikes().drop_last() =~= old(self).strikes());
            },
        }
        until
    }

    /// `neighbor` was reached again: its cooldown is halved, and it may be
    /// dialled at once. A neighbour without a strike is left as it is.
    pub fn on_reconnect(&mut self, neighbor: NeighborId)
        ensures
            final(self).config() == old(self).config(),
            final(self).links() == old(self).links(),
            final(self).strikes().len() == old(self).strikes().len(),
            if no_strike(old(self).strikes(), neighbor) {
                final(self).strikes() == old(self).strikes()
            } else {
                exists|i: int|
                    {
                        &&& is_first_strike(old(self).strikes(), neighbor, i)
                        &&& forall|j: int|
                            0 <= j < old(self).strikes().len() && j != i ==> final(self).strikes()[j] == old(self).strikes()[j]
                        &&& final(self).strikes()[i].neighbor == neighbor
                        &&& final(self).strikes()[i].cooldown.secs() == cooldown_after_reconnect(
                            old(self).strikes()[i].cooldown.secs(),
                        )
                        &&& final(self).strikes()[i].until == 0
                    }
            },
    {
        match self.find_strike(&neighbor) {
            Some(i) => {
                let mut cooldown = self.strikes[i].cooldown;
                cooldown.on_reconnect();
                self.strikes[i] = Strike { neighbor, cooldown, until: 0 };
                assert(is_first_strike(old(self).strikes(), neighbor, i as int));
            },
            None => {},
        }
    }

    /// How many links the table holds.
    pub fn link_count(&self) -> (n: usize)
        ensures
            n == self.links().dom().len(),
    {
        table_len(&self.links)
    }

    /// The link to `neighbor`, if the table holds one.
    pub fn link(&self, neighbor: &NeighborId) -> (found: Option<Link>)
        ensures
            match found {
                Some(link) => self.links().dom().contains(*neighbor) && self.links()[*neighbor]
                    == link,
                None => !self.links().dom().contains(*neighbor),
            },
    {
        table_get(&self.links, neighbor)
    }

    /// Puts a link into the table, under its neighbour and in place of the
    /// link that the table held for that neighbour.
    pub fn insert_link(&mut self, link: Link)
        ensures
            final(self).config() == old(self).config(),
            final(self).strikes() == old(self).strikes(),
            final(self).links() == old(self).links().insert(link.neighbor(), link),
    {
        table_insert(&mut self.links, link.neighbor_id(), link);
    }

    /// Takes the link to `neighbor` out of the table. Says whether there was
    /// one.
    pub fn remove_link(&mut self, neighbor: &NeighborId) -> (removed: bool)
        ensures
            final(self).config() == old(self).config(),
            final(self).strikes() == old(self).strikes(),
            removed == old(self).links().dom().contains(*neighbor),
            final(self).links() == old(self).links().remove(*neighbor),
    {
        table_remove(&mut self.links, neighbor)
    }

    /// How an outgoing packet gets to `next_hop` at the second `now`: over
    /// the link to it; without a link by dialling, where the next hop is a
    /// relay that an out-route names and that is not left alone after a
    /// failure; else not at all.
    pub fn route(&self, next_hop: &NeighborId, now: u64) -> (route: Route)
        ensures
            route == if self.links().dom().contains(*next_hop) {
                Route::Link(self.links()[*next_hop])
            } else {
                match *next_hop {
                    NeighborId::Relay(fingerprint) => if self.config().dials(fingerprint)
                        && !cooling(self.strikes(), *next_hop, now) {
                        Route::Dial(fingerprint)
                    } else {
                        Route::NoRoute
                    },
                    NeighborId::Client(_) => Route::NoRoute,
                }
            },
    {
        match self.link(next_hop) {
            Some(link) => Route::Link(link),
            None => match next_hop {
                NeighborId::Relay(fingerprint) => if self.config.is_out_route_target(fingerprint)
                    && !self.is_cooling(next_hop, now) {
                    Route::Dial(*fingerprint)
                } else {
                    Route::NoRoute
                },
                NeighborId::Client(_) => Route::NoRoute,
            },
        }
    }

    /// The route once dialling has ended: the link if there is one now, else
    /// `NoRoute`.
    pub fn route_after_dial(&self, next_hop: &NeighborId) -> (link: Result<Link, SocketSendError>)
        ensures
            link == if self.links().dom().contains(*next_hop) {
                Ok::<Link, SocketSendError>(self.links()[*next_hop])
            } else {
                Err::<Link, SocketSendError>(SocketSendError::NoRoute)
            },
    {
        match self.link(next_hop) {
            Some(link) => Ok(link),
            None => Err(SocketSendError::NoRoute),
        }
    }
}

} // verus!
