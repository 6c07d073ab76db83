use u032::Privilege;

#[test]
fn partition_splits_address_by_mask() {
    let p = Privilege::new(0xFFFF_0000, 0x1234_5678);
    assert_eq!(p.network_address(), 0x1234_0000);
    assert_eq!(p.local_address(), 0x0000_5678);
    assert_eq!(p.network_address() & p.local_address(), 0);
    assert_eq!(p.network_address() | p.local_address(), 0x1234_5678);
}

#[test]
fn empty_permission_keeps_everything_local() {
    let p = Privilege::new(0, 0xDEAD_BEEF);
    assert_eq!(p.network_address(), 0);
    assert_eq!(p.local_address(), 0xDEAD_BEEF);
}

#[test]
fn full_permission_exposes_everything() {
    let p = Privilege::new(0xFFFF_FFFF, 0xDEAD_BEEF);
    assert_eq!(p.network_address(), 0xDEAD_BEEF);
    assert_eq!(p.local_address(), 0);
}

#[test]
fn interleaved_mask_partitions_disjointly() {
    let p = Privilege::new(0xAAAA_AAAA, 0xFFFF_FFFF);
    assert_eq!(p.network_address(), 0xAAAA_AAAA);
    assert_eq!(p.local_address(), 0x5555_5555);
    assert_eq!(p.network_address() & p.local_address(), 0);
    assert_eq!(p.network_address() | p.local_address(), p.address);
}
