use earendil::addr::Fingerprint;
use earendil::haven::{ForwardTable, RegisterHavenReq};

fn req(identity: u8, key: u8) -> RegisterHavenReq {
    RegisterHavenReq { identity: Fingerprint::from_bytes([identity; 20]), onion_pk: [key; 32] }
}

#[test]
fn repeated_registration_changes_nothing() {
    let mut table = ForwardTable::new();
    table.alloc_forward(req(1, 7));
    assert_eq!(table.len(), 1);
    table.alloc_forward(req(1, 7));
    table.alloc_forward(req(1, 7));
    assert_eq!(table.len(), 1);
    assert_eq!(table.lookup(&Fingerprint::from_bytes([1; 20])), Some([7; 32]));
}

#[test]
fn last_registration_wins() {
    let mut table = ForwardTable::new();
    table.alloc_forward(req(1, 7));
    table.alloc_forward(req(2, 8));
    table.alloc_forward(req(1, 9));
    assert_eq!(table.len(), 2);
    assert_eq!(table.lookup(&Fingerprint::from_bytes([1; 20])), Some([9; 32]));
    assert_eq!(table.lookup(&Fingerprint::from_bytes([2; 20])), Some([8; 32]));
    assert_eq!(table.lookup(&Fingerprint::from_bytes([3; 20])), None);
}

#[test]
fn empty_table_knows_nobody() {
    let table = ForwardTable::new();
    assert_eq!(table.len(), 0);
    assert_eq!(table.lookup(&Fingerprint::from_bytes([0; 20])), None);
}
