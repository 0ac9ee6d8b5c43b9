use mm::user_stack::UserStack;

#[test]
fn new_stack_starts_at_base() {
    let s = UserStack::new(0x7fff_0000, 0xffff_8000_1000_0000);
    assert_eq!(s.get_sp(), 0x7fff_0000);
    assert_eq!(s.ptr(), 0xffff_8000_1000_0000);
}

#[test]
fn push_str_reserves_bytes_and_nul() {
    let mut s = UserStack::new(0x1000, 0x9000);
    let sp = s.push_str("init");
    assert_eq!(sp, 0x1000 - 5);
    assert_eq!(s.get_sp(), 0xffb);
    assert_eq!(s.ptr(), 0x9000 - 5);
    let sp2 = s.push_str("");
    assert_eq!(sp2, 0xffa);
}

#[test]
fn reserve_aligns_down() {
    let mut s = UserStack::new(0x1000, 0x9000);
    s.push_str("ab");
    assert_eq!(s.get_sp(), 0xffd);
    let p = s.reserve(8, 8);
    // 0xffd - 8 = 0xff5, down to 0xff0.
    assert_eq!(s.get_sp(), 0xff0);
    assert_eq!(p, 0x9000 - 0x10);
    assert_eq!(s.ptr(), p);
}
