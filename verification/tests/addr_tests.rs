use gtirb::Addr;

#[test]
fn adds() {
    assert_eq!(Addr(0x1000).add(Addr(0x1000)), Addr(0x2000));
}

#[test]
fn subtracts() {
    assert_eq!(Addr(0x2000).sub(Addr(0x1000)), Addr(0x1000));
}

#[test]
fn equality() {
    assert!(Addr(0xCAFE) == Addr(0xCAFE));
}

#[test]
fn compares() {
    assert!(Addr(0xCAFE) < Addr(0xCAFF));
    assert!(Addr(0xCAFE) > Addr(0xBEEF));
}

#[test]
fn wraps_around() {
    assert_eq!(Addr(u64::MAX).add(Addr(1)), Addr(0));
    assert_eq!(Addr(0).sub(Addr(1)), Addr(u64::MAX));
}
