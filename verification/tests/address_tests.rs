use byte_scanner::address::{Address, Base, Offset};

#[test]
fn we_can_add_a_base_and_an_offset() {
    let base: Base = Base::from(0x1000);
    let offset: Offset = Offset::from(0x100usize);
    let address = &base + &offset;

    assert_eq!(address.value, 0x1100);
}

#[test]
fn we_can_rebase_an_address() {
    let base_a: Base = 0x1000usize.into();
    let base_b: Base = 0x2000usize.into();
    let offset: Offset = 0x100usize.into();
    let address = &base_a + &offset;
    let new_address = address.rebase(&base_a, &base_b);

    assert_eq!(new_address.value, 0x2100);
}

#[test]
fn we_can_move_an_offset() {
    let mut offset: Offset = 0x100usize.into();
    offset.move_by(0x10);

    assert_eq!(offset.value, 0x110);
}

#[test]
fn we_can_into_an_offset() {
    let offset_usize: usize = 0x100;
    let offset: Offset = offset_usize.into();
    let result: usize = offset.into();

    assert_eq!(result, offset_usize);
}

#[test]
fn we_can_read_offset_as_usize() {
    let offset_usize: usize = 0x100;
    let offset: Offset = offset_usize.into();

    assert_eq!(offset.as_usize(), offset_usize);
}

#[test]
fn an_address_comes_from_a_usize() {
    let address: Address = Address::from(0x4000usize);

    assert_eq!(address.as_usize(), 0x4000);
}
