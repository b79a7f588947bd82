use nanopass::password::{ArrayString, PasswordItem};

#[test]
fn from_bytes_pads_with_zeros() {
    let s = ArrayString::<32>::from_bytes(b"alice");
    let mut expected = [0u8; 32];
    expected[..5].copy_from_slice(b"alice");
    assert_eq!(s.bytes(), &expected);
}

#[test]
fn from_bytes_cuts_what_does_not_fit() {
    let s = ArrayString::<4>::from_bytes(b"abcdefgh");
    assert_eq!(s.bytes(), b"abcd");
    assert_eq!(s.len(), 4);
}

#[test]
fn from_bytes_of_a_full_field_keeps_every_byte() {
    let mut field = [0u8; 32];
    for (i, b) in field.iter_mut().enumerate() {
        *b = 0x41 + i as u8;
    }
    let s = ArrayString::<32>::from_bytes(&field);
    assert_eq!(s.bytes(), &field);
    assert_eq!(s.len(), 32);
}

#[test]
fn new_string_is_all_zeros() {
    let s = ArrayString::<32>::new();
    assert_eq!(s.bytes(), &[0u8; 32]);
    assert_eq!(s.len(), 0);
}

#[test]
fn set_from_bytes_overwrites_the_old_text_and_its_tail() {
    let mut s = ArrayString::<8>::from_bytes(b"longtext");
    s.set_from_bytes(b"ab");
    assert_eq!(s.bytes(), b"ab\0\0\0\0\0\0");
    assert_eq!(s.len(), 2);
}

#[test]
fn len_stops_at_the_first_zero() {
    let s = ArrayString::<8>::from_bytes(b"ab\0cd");
    assert_eq!(s.len(), 2);
}

#[test]
fn same_bytes_compares_the_padding_too() {
    let a = ArrayString::<8>::from_bytes(b"name");
    let b = ArrayString::<8>::from_bytes(b"name");
    let c = ArrayString::<8>::from_bytes(b"name\0x");
    let d = ArrayString::<8>::from_bytes(b"nam");
    assert!(a.same_bytes(&b));
    assert!(!a.same_bytes(&c));
    assert!(!a.same_bytes(&d));
    assert_eq!(a, b);
    assert_ne!(a, c);
}

#[test]
fn new_item_is_empty() {
    let item = PasswordItem::new();
    assert_eq!(item.name.bytes(), &[0u8; 32]);
    assert_eq!(item.pass.bytes(), &[0u8; 32]);
}
