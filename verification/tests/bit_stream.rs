use supersecret::BitGetter;
use supersecret::BitSetter;

#[test]
fn bit_getter_worky() {
    let test_data = [123, 255, 52];

    let mut bit_getter = BitGetter::new(&test_data);

    //123
    assert_eq!(bit_getter.next(), Some(true));
    assert_eq!(bit_getter.next(), Some(true));
    assert_eq!(bit_getter.next(), Some(false));
    assert_eq!(bit_getter.next(), Some(true));
    assert_eq!(bit_getter.next(), Some(true));
    assert_eq!(bit_getter.next(), Some(true));
    assert_eq!(bit_getter.next(), Some(true));
    assert_eq!(bit_getter.next(), Some(false));

    //255
    assert_eq!(bit_getter.next(), Some(true));
    assert_eq!(bit_getter.next(), Some(true));
    assert_eq!(bit_getter.next(), Some(true));
    assert_eq!(bit_getter.next(), Some(true));
    assert_eq!(bit_getter.next(), Some(true));
    assert_eq!(bit_getter.next(), Some(true));
    assert_eq!(bit_getter.next(), Some(true));
    assert_eq!(bit_getter.next(), Some(true));

    //52
    assert_eq!(bit_getter.next(), Some(false));
    assert_eq!(bit_getter.next(), Some(false));
    assert_eq!(bit_getter.next(), Some(true));
    assert_eq!(bit_getter.next(), Some(false));
    assert_eq!(bit_getter.next(), Some(true));
    assert_eq!(bit_getter.next(), Some(true));
    assert_eq!(bit_getter.next(), Some(false));
    assert_eq!(bit_getter.next(), Some(false));

    assert_eq!(bit_getter.next(), None);
}

#[test]
fn bit_getter_empty() {
    let mut bit_getter = BitGetter::new(&[]);
    assert_eq!(bit_getter.next(), None);
    assert_eq!(bit_getter.next(), None);
}

#[test]
fn bit_setter_packs_lsb_first() {
    let mut setter = BitSetter::new();
    // The bits of 123, least significant first.
    for bit in [true, true, false, true, true, true, true, false] {
        setter.push_bit(bit);
    }
    assert_eq!(setter.data(), &[123u8][..]);
}

#[test]
fn bit_setter_inverts_getter() {
    let bytes = [123, 255, 52, 0, 7];
    let mut getter = BitGetter::new(&bytes);
    let mut setter = BitSetter::new();
    while let Some(bit) = getter.next() {
        setter.push_bit(bit);
    }
    assert_eq!(setter.data(), &bytes[..]);
}

#[test]
fn bit_setter_drops_partial_byte() {
    let mut setter = BitSetter::new();
    for _ in 0..8 {
        setter.push_bit(true);
    }
    for _ in 0..5 {
        setter.push_bit(true);
    }
    // Only the first completed byte is visible.
    assert_eq!(setter.data(), &[255u8][..]);
}
