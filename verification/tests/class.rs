use dex_class::access_flags::{ALL, FINAL, PUBLIC};
use dex_class::class::{resolve_super_class, Class, Dex};
use dex_class::class_def::{ClassDefItem, NO_INDEX};
use dex_class::error::DecodeError;
use dex_class::leb128::read_uleb128;
use std::cell::RefCell;

type Field = (u32, u32);
type Method = (u32, u32, u32);
type TestClass = Class<String, String, String, Field, Method, i64>;

/// Class data at offset 4: two static fields, one instance field, one direct
/// method, two virtual methods.
const BUFFER: [u8; 26] = [
    0xee, 0xee, 0xee, 0xee, // not class data
    0x02, 0x01, 0x01, 0x02, // counts
    0x03, 0x09, 0x02, 0x0a, // static fields 3 and 5
    0x07, 0x01, // instance field 7
    0x01, 0x81, 0x80, 0x04, 0x10, // direct method 1
    0x00, 0x01, 0x20, 0x04, 0x02, 0x30, // virtual methods 0 and 4
    0x80, // an integer without end
];

fn plain() -> ClassDefItem {
    ClassDefItem {
        class_idx: 11,
        access_flags: PUBLIC | FINAL,
        superclass_idx: 2,
        interfaces_off: 40,
        source_file_idx: 6,
        annotations_off: 50,
        class_data_off: 4,
        static_values_off: 60,
    }
}

/// Assembles `class_def` over `BUFFER`. A lookup on the index or offset
/// `fail_at` fails with `Malformed`; every lookup is noted in `calls`.
fn assemble_noting(
    class_def: &ClassDefItem,
    fail_at: Option<u32>,
    calls: &RefCell<Vec<String>>,
) -> Result<TestClass, DecodeError> {
    let note = |what: &str, at: u32| -> Result<(), DecodeError> {
        calls.borrow_mut().push(format!("{} {}", what, at));
        if fail_at == Some(at) {
            Err(DecodeError::Malformed)
        } else {
            Ok(())
        }
    };
    let dex = Dex {
        source: &BUFFER[..],
        resolve_type: |index: u32| {
            note("type", index)?;
            Ok(format!("L{};", index))
        },
        resolve_string: |index: u32| {
            note("string", index)?;
            Ok(Some(format!("File{}.java", index)))
        },
        decode_field: |pos: usize, index: u32| {
            let mut cursor = pos;
            let flags = read_uleb128(&BUFFER, &mut cursor)?;
            Ok(((index, flags), cursor))
        },
        decode_method: |pos: usize, index: u32| {
            let mut cursor = pos;
            let flags = read_uleb128(&BUFFER, &mut cursor)?;
            let code = read_uleb128(&BUFFER, &mut cursor)?;
            Ok(((index, flags, code), cursor))
        },
        decode_interfaces: |offset: u32| {
            note("interfaces", offset)?;
            Ok(Some(vec![format!("I{};", offset), format!("J{};", offset)]))
        },
        decode_annotations: |offset: u32| {
            note("annotations", offset)?;
            Ok(Some(format!("@{}", offset)))
        },
        decode_static_values: |offset: u32| {
            note("values", offset)?;
            Ok(vec![offset as i64, -1])
        },
    };
    Class::try_from_dex(&dex, class_def)
}

fn assemble(class_def: &ClassDefItem) -> Result<TestClass, DecodeError> {
    assemble_noting(class_def, None, &RefCell::new(Vec::new()))
}

fn failing_at(class_def: &ClassDefItem, at: u32) -> Option<DecodeError> {
    assemble_noting(class_def, Some(at), &RefCell::new(Vec::new())).err()
}

#[test]
fn class_with_everything() {
    let class = assemble(&plain()).ok().unwrap();
    assert_eq!(class.id(), 11);
    assert_eq!(class.jtype(), "L11;");
    assert_eq!(class.access_flags().bits(), 0x11);
    assert_eq!(class.super_class(), None);
    assert_eq!(class.interfaces(), &Some(vec!["I40;".to_string(), "J40;".to_string()]));
    assert_eq!(class.annotations(), &Some("@50".to_string()));
    assert_eq!(class.source_file(), &Some("File6.java".to_string()));
    assert_eq!(class.static_fields(), &vec![(3, 9), (5, 10)]);
    assert_eq!(class.instance_fields(), &vec![(7, 1)]);
    assert_eq!(class.direct_methods(), &vec![(1, 65537, 16)]);
    assert_eq!(class.virtual_methods(), &vec![(0, 1, 32), (4, 2, 48)]);
    assert_eq!(class.static_values(), &vec![60, -1]);
}

#[test]
fn lookups_are_made_in_their_order() {
    let calls = RefCell::new(Vec::new());
    assert!(assemble_noting(&plain(), None, &calls).is_ok());
    let expected = ["type 11", "values 60", "annotations 50", "interfaces 40", "string 6"];
    assert_eq!(calls.into_inner(), expected);
}

#[test]
fn fields_are_static_then_instance() {
    let class = assemble(&plain()).ok().unwrap();
    assert_eq!(class.fields(), vec![&(3, 9), &(5, 10), &(7, 1)]);
}

#[test]
fn methods_are_direct_then_virtual() {
    let class = assemble(&plain()).ok().unwrap();
    assert_eq!(class.methods(), vec![&(1, 65537, 16), &(0, 1, 32), &(4, 2, 48)]);
}

#[test]
fn fields_and_methods_of_a_class_without_class_data() {
    let class = assemble(&ClassDefItem { class_data_off: 0, ..plain() }).ok().unwrap();
    assert!(class.fields().is_empty());
    assert!(class.methods().is_empty());
}

#[test]
fn no_interfaces_at_offset_zero() {
    let calls = RefCell::new(Vec::new());
    let def = ClassDefItem { interfaces_off: 0, ..plain() };
    let class = assemble_noting(&def, Some(0), &calls).ok().unwrap();
    assert_eq!(class.interfaces(), &None);
    assert!(!calls.into_inner().iter().any(|call| call.starts_with("interfaces")));
}

#[test]
fn no_annotations_at_offset_zero() {
    let calls = RefCell::new(Vec::new());
    let def = ClassDefItem { annotations_off: 0, ..plain() };
    let class = assemble_noting(&def, Some(0), &calls).ok().unwrap();
    assert_eq!(class.annotations(), &None);
    assert!(!calls.into_inner().iter().any(|call| call.starts_with("annotations")));
}

#[test]
fn no_static_values_at_offset_zero() {
    let calls = RefCell::new(Vec::new());
    let def = ClassDefItem { static_values_off: 0, ..plain() };
    let class = assemble_noting(&def, Some(0), &calls).ok().unwrap();
    assert!(class.static_values().is_empty());
    assert_eq!(class.static_fields().len(), 2);
    assert!(!calls.into_inner().iter().any(|call| call.starts_with("values")));
}

#[test]
fn no_members_without_class_data() {
    let class = assemble(&ClassDefItem { class_data_off: 0, ..plain() }).ok().unwrap();
    assert!(class.static_fields().is_empty());
    assert!(class.instance_fields().is_empty());
    assert!(class.direct_methods().is_empty());
    assert!(class.virtual_methods().is_empty());
    assert_eq!(class.interfaces().as_ref().map(|types| types.len()), Some(2));
}

#[test]
fn no_static_values_without_class_data() {
    let calls = RefCell::new(Vec::new());
    let def = ClassDefItem { class_data_off: 0, ..plain() };
    let class = assemble_noting(&def, Some(60), &calls).ok().unwrap();
    assert!(class.static_values().is_empty());
    assert!(!calls.into_inner().iter().any(|call| call.starts_with("values")));
}

#[test]
fn no_source_file_at_no_index() {
    let calls = RefCell::new(Vec::new());
    let def = ClassDefItem { source_file_idx: NO_INDEX, ..plain() };
    let class = assemble_noting(&def, Some(NO_INDEX), &calls).ok().unwrap();
    assert_eq!(class.source_file(), &None);
    assert!(!calls.into_inner().iter().any(|call| call.starts_with("string")));
}

#[test]
fn source_file_index_zero_is_looked_up() {
    let class = assemble(&ClassDefItem { source_file_idx: 0, ..plain() }).ok().unwrap();
    assert_eq!(class.source_file(), &Some("File0.java".to_string()));
}

#[test]
fn class_with_nothing_but_its_type() {
    let def = ClassDefItem {
        class_idx: 0,
        access_flags: 0,
        superclass_idx: 0,
        interfaces_off: 0,
        source_file_idx: NO_INDEX,
        annotations_off: 0,
        class_data_off: 0,
        static_values_off: 0,
    };
    let calls = RefCell::new(Vec::new());
    let class = assemble_noting(&def, None, &calls).ok().unwrap();
    assert_eq!(calls.into_inner(), ["type 0"]);
    assert_eq!(class.id(), 0);
    assert_eq!(class.jtype(), "L0;");
    assert_eq!(class.access_flags().bits(), 0);
    assert_eq!(class.super_class(), None);
    assert_eq!(class.interfaces(), &None);
    assert_eq!(class.annotations(), &None);
    assert_eq!(class.source_file(), &None);
    assert!(class.fields().is_empty());
    assert!(class.methods().is_empty());
    assert!(class.static_values().is_empty());
}

#[test]
fn every_known_flag_is_accepted() {
    let class = assemble(&ClassDefItem { access_flags: ALL, ..plain() }).ok().unwrap();
    assert_eq!(class.access_flags().bits(), 0x761f);
}

#[test]
fn every_unknown_flag_is_rejected() {
    for bit in 0..32 {
        let mask = 1u32 << bit;
        if ALL & mask == 0 {
            let alone = assemble(&ClassDefItem { access_flags: mask, ..plain() });
            assert_eq!(alone.err(), Some(DecodeError::InvalidId { id: 11 }));
            let beside = assemble(&ClassDefItem { access_flags: mask | PUBLIC, ..plain() });
            assert_eq!(beside.err(), Some(DecodeError::InvalidId { id: 11 }));
        }
    }
}

#[test]
fn unknown_flag_names_the_class() {
    let def = ClassDefItem { class_idx: 77, access_flags: 0x20, ..plain() };
    assert_eq!(assemble(&def).err(), Some(DecodeError::InvalidId { id: 77 }));
}

#[test]
fn unknown_flag_comes_before_the_source_file() {
    let calls = RefCell::new(Vec::new());
    let def = ClassDefItem { access_flags: 0x8000, ..plain() };
    let r = assemble_noting(&def, Some(6), &calls);
    assert_eq!(r.err(), Some(DecodeError::InvalidId { id: 11 }));
    assert!(!calls.into_inner().iter().any(|call| call.starts_with("string")));
}

#[test]
fn earlier_failure_comes_before_an_unknown_flag() {
    let def = ClassDefItem { access_flags: 0x20, ..plain() };
    assert_eq!(failing_at(&def, 40), Some(DecodeError::Malformed));
    assert_eq!(failing_at(&def, 50), Some(DecodeError::Malformed));
    assert_eq!(failing_at(&def, 60), Some(DecodeError::Malformed));
    let truncated = ClassDefItem { class_data_off: 25, ..def };
    assert_eq!(assemble(&truncated).err(), Some(DecodeError::Truncated { offset: 25 }));
}

/// The rule as the library has it: the field is handed on where it holds
/// the value that the format uses for "no super class". By the format's own
/// reading this class would have no super class.
#[test]
fn super_class_field_of_no_index_is_handed_on() {
    let class = assemble(&ClassDefItem { superclass_idx: NO_INDEX, ..plain() }).ok().unwrap();
    assert_eq!(class.super_class(), Some(NO_INDEX));
    assert_eq!(resolve_super_class(NO_INDEX), Some(0xffff_ffff));
}

/// The rule as the library has it: the index of a super class is dropped.
/// By the format's own reading these classes would have the super classes
/// 2, 0 and 0xffff_fffe.
#[test]
fn super_class_field_with_an_index_is_dropped() {
    let class = assemble(&ClassDefItem { superclass_idx: 2, ..plain() }).ok().unwrap();
    assert_eq!(class.super_class(), None);
    assert_eq!(resolve_super_class(2), None);
    assert_eq!(resolve_super_class(0), None);
    assert_eq!(resolve_super_class(0xffff_fffe), None);
}

#[test]
fn failure_of_the_type_is_an_invalid_class_index() {
    let calls = RefCell::new(Vec::new());
    let r = assemble_noting(&plain(), Some(11), &calls);
    assert_eq!(r.err(), Some(DecodeError::InvalidId { id: 11 }));
    assert_eq!(calls.into_inner(), ["type 11"]);
}

#[test]
fn failure_of_the_class_data_is_handed_on() {
    let calls = RefCell::new(Vec::new());
    let def = ClassDefItem { class_data_off: 25, ..plain() };
    let r = assemble_noting(&def, None, &calls);
    assert_eq!(r.err(), Some(DecodeError::Truncated { offset: 25 }));
    assert_eq!(calls.into_inner(), ["type 11"]);
    let behind = ClassDefItem { class_data_off: 4000, ..plain() };
    assert_eq!(assemble(&behind).err(), Some(DecodeError::Truncated { offset: 4000 }));
}

#[test]
fn failure_of_the_static_values_is_handed_on() {
    let calls = RefCell::new(Vec::new());
    let r = assemble_noting(&plain(), Some(60), &calls);
    assert_eq!(r.err(), Some(DecodeError::Malformed));
    assert_eq!(calls.into_inner(), ["type 11", "values 60"]);
}

#[test]
fn failure_of_the_annotations_is_handed_on() {
    let calls = RefCell::new(Vec::new());
    let r = assemble_noting(&plain(), Some(50), &calls);
    assert_eq!(r.err(), Some(DecodeError::Malformed));
    assert_eq!(calls.into_inner(), ["type 11", "values 60", "annotations 50"]);
}

#[test]
fn failure_of_the_interfaces_is_handed_on() {
    let calls = RefCell::new(Vec::new());
    let r = assemble_noting(&plain(), Some(40), &calls);
    assert_eq!(r.err(), Some(DecodeError::Malformed));
    assert_eq!(calls.into_inner(), ["type 11", "values 60", "annotations 50", "interfaces 40"]);
}

#[test]
fn failure_of_the_source_file_is_handed_on() {
    assert_eq!(failing_at(&plain(), 6), Some(DecodeError::Malformed));
}

#[test]
fn assembling_twice_gives_the_same_class() {
    let one = assemble(&plain()).ok().unwrap();
    let other = assemble(&plain()).ok().unwrap();
    assert_eq!(one.id(), other.id());
    assert_eq!(one.jtype(), other.jtype());
    assert_eq!(one.access_flags(), other.access_flags());
    assert_eq!(one.super_class(), other.super_class());
    assert_eq!(one.interfaces(), other.interfaces());
    assert_eq!(one.annotations(), other.annotations());
    assert_eq!(one.source_file(), other.source_file());
    assert_eq!(one.static_fields(), other.static_fields());
    assert_eq!(one.instance_fields(), other.instance_fields());
    assert_eq!(one.direct_methods(), other.direct_methods());
    assert_eq!(one.virtual_methods(), other.virtual_methods());
    assert_eq!(one.static_values(), other.static_values());
    assert_eq!(one.fields(), other.fields());
    assert_eq!(one.methods(), other.methods());
}

#[test]
fn assembling_twice_gives_the_same_error() {
    let def = ClassDefItem { access_flags: 0x40, ..plain() };
    assert_eq!(assemble(&def).err(), assemble(&def).err());
    assert_eq!(failing_at(&plain(), 50), failing_at(&plain(), 50));
}
