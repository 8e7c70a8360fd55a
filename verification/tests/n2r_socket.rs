use earendil::addr::Fingerprint;
use earendil::socket::n2r_socket::{DockTable, N2rSocket, ReplyBlock, ReplyPool, EPHEMERAL_DOCK_MIN};
use earendil::socket::{Endpoint, SocketBindError};

fn fp(fill: u8) -> Fingerprint {
    Fingerprint::from_bytes([fill; 20])
}

fn block(id: u64) -> ReplyBlock {
    ReplyBlock { id, header: vec![id as u8; 4] }
}

#[test]
fn bind_collision_is_dock_in_use() {
    let mut table = DockTable::new();
    let socket = N2rSocket::bind(&mut table, fp(1), Some(5)).unwrap();
    assert_eq!(socket.skt_info(), Endpoint::new(fp(1), 5));
    assert_eq!(
        N2rSocket::bind(&mut table, fp(1), Some(5)).err(),
        Some(SocketBindError::DockInUse)
    );
    assert!(table.unbind(&Endpoint::new(fp(1), 5)));
    assert!(!table.unbind(&Endpoint::new(fp(1), 5)));
    assert!(N2rSocket::bind(&mut table, fp(1), Some(5)).is_ok());
}

#[test]
fn ephemeral_docks_are_picked_lowest_first() {
    let mut table = DockTable::new();
    assert_eq!(table.free_ephemeral_dock(fp(1)), Some(EPHEMERAL_DOCK_MIN));
    table.bind(fp(1), Some(EPHEMERAL_DOCK_MIN + 1)).unwrap();
    assert_eq!(table.bind(fp(1), None), Ok(Endpoint::new(fp(1), EPHEMERAL_DOCK_MIN)));
    assert_eq!(table.bind(fp(1), None), Ok(Endpoint::new(fp(1), EPHEMERAL_DOCK_MIN + 2)));
    assert!(table.unbind(&Endpoint::new(fp(1), EPHEMERAL_DOCK_MIN)));
    assert_eq!(table.bind(fp(1), None), Ok(Endpoint::new(fp(1), EPHEMERAL_DOCK_MIN)));
}

#[test]
fn ephemeral_range_can_run_out() {
    let mut table = DockTable::new();
    for dock in EPHEMERAL_DOCK_MIN..u16::MAX {
        table.bind(fp(1), Some(dock)).unwrap();
    }
    assert_eq!(table.bind(fp(1), None), Ok(Endpoint::new(fp(1), u16::MAX)));
    assert_eq!(table.bind(fp(1), None), Err(SocketBindError::DockInUse));
    assert_eq!(table.free_ephemeral_dock(fp(1)), None);
    assert_eq!(table.free_ephemeral_dock(fp(2)), Some(EPHEMERAL_DOCK_MIN));
}

#[test]
fn reply_without_a_block_waits_for_the_refill() {
    let mut pool = ReplyPool::new(1, 4);
    assert!(pool.needs_refill());
    assert_eq!(pool.wanted(), 4);
    assert!(pool.refill(block(1)).is_none());
    assert!(pool.refill(block(2)).is_none());
    assert!(!pool.needs_refill());
    assert_eq!(pool.available(), 2);
    assert_eq!(pool.wanted(), 0);

    let (used, body) = pool.send(b"first".to_vec()).unwrap();
    assert_eq!((used.id, body), (1, b"first".to_vec()));
    let (used, body) = pool.send(b"second".to_vec()).unwrap();
    assert_eq!((used.id, body), (2, b"second".to_vec()));
    assert!(pool.needs_refill());

    // the pool is used up: replies wait, none is dropped
    assert!(pool.send(b"third".to_vec()).is_none());
    assert!(pool.send(b"fourth".to_vec()).is_none());
    assert_eq!(pool.pending(), 2);
    assert_eq!(pool.available(), 0);
    assert_eq!(pool.wanted(), 6);

    // the refill lets them go, oldest first
    let (used, body) = pool.refill(block(3)).unwrap();
    assert_eq!((used.id, body), (3, b"third".to_vec()));
    let (used, body) = pool.refill(block(4)).unwrap();
    assert_eq!((used.id, body), (4, b"fourth".to_vec()));
    assert_eq!(pool.pending(), 0);
    assert!(pool.refill(block(5)).is_none());
    assert_eq!(pool.available(), 1);
}
