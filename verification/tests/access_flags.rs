use dex_class::access_flags::{
    AccessFlags, ABSTRACT, ALL, ANNOTATION, ENUM, FINAL, INTERFACE, PRIVATE, PROTECTED, PUBLIC,
    STATIC, SYNTHETIC,
};

#[test]
fn flag_values() {
    assert_eq!(PUBLIC, 0x1);
    assert_eq!(PRIVATE, 0x2);
    assert_eq!(PROTECTED, 0x4);
    assert_eq!(STATIC, 0x8);
    assert_eq!(FINAL, 0x10);
    assert_eq!(INTERFACE, 0x200);
    assert_eq!(ABSTRACT, 0x400);
    assert_eq!(SYNTHETIC, 0x1000);
    assert_eq!(ANNOTATION, 0x2000);
    assert_eq!(ENUM, 0x4000);
}

#[test]
fn all_is_the_union_of_the_ten_flags() {
    let union = PUBLIC | PRIVATE | PROTECTED | STATIC | FINAL | INTERFACE | ABSTRACT | SYNTHETIC
        | ANNOTATION | ENUM;
    assert_eq!(ALL, union);
    assert_eq!(ALL.count_ones(), 10);
}

#[test]
fn each_flag_alone_is_accepted() {
    let flags = [
        PUBLIC, PRIVATE, PROTECTED, STATIC, FINAL, INTERFACE, ABSTRACT, SYNTHETIC, ANNOTATION, ENUM,
    ];
    for flag in flags {
        let set = AccessFlags::from_bits(flag).unwrap();
        assert_eq!(set.bits(), flag);
        assert!(set.contains(flag));
    }
}

#[test]
fn unions_of_flags_are_accepted() {
    let set = AccessFlags::from_bits(PUBLIC | FINAL | ENUM).unwrap();
    assert_eq!(set.bits(), 0x4011);
    assert!(set.contains(PUBLIC));
    assert!(set.contains(FINAL | ENUM));
    assert!(!set.contains(STATIC));
    assert!(!set.contains(PUBLIC | STATIC));
    assert_eq!(AccessFlags::from_bits(ALL).unwrap().bits(), 0x761f);
}

#[test]
fn no_flag_is_accepted() {
    assert_eq!(AccessFlags::from_bits(0), Some(AccessFlags::empty()));
    assert_eq!(AccessFlags::empty().bits(), 0);
    assert!(AccessFlags::empty().contains(0));
    assert!(!AccessFlags::empty().contains(PUBLIC));
}

#[test]
fn every_bit_outside_the_flags_is_rejected() {
    for bit in 0..32 {
        let mask = 1u32 << bit;
        let known = ALL & mask != 0;
        assert_eq!(AccessFlags::from_bits(mask).is_some(), known);
        assert_eq!(AccessFlags::from_bits(mask | PUBLIC).is_some(), known);
        assert_eq!(AccessFlags::from_bits(mask | ALL).is_some(), known);
    }
}

#[test]
fn unknown_bits_beside_known_ones_are_rejected() {
    assert_eq!(AccessFlags::from_bits(0x20), None);
    assert_eq!(AccessFlags::from_bits(0x8000), None);
    assert_eq!(AccessFlags::from_bits(PUBLIC | 0x40), None);
    assert_eq!(AccessFlags::from_bits(u32::MAX), None);
}
