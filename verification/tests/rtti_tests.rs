use byte_scanner::rtti::base_class_descriptor::BaseClassDescriptor;
use byte_scanner::rtti::class_hierarchy_descriptor::ClassHierarchyDescriptor;
use byte_scanner::rtti::complete_object_locator::CompleteObjectLocator;
use byte_scanner::rtti::symbol;
use byte_scanner::rtti::type_descriptor::TypeDescriptor;

#[test]
fn class_hierarchy_descriptor_from_works() {
    let bytes = vec![
        0x00, 0x00, 0x00, 0x00, 0x00, 0x00, 0x00, 0x00, 0x04, 0x00, 0x00, 0x00, 0x98, 0x71, 0x2e,
        0x03,
    ];

    let chd = ClassHierarchyDescriptor::from_slice(&bytes);

    assert_eq!(chd.signature, 0x0);
    assert_eq!(chd.attributes, 0x0);
    assert_eq!(chd.base_class_count, 0x4);
    assert_eq!(chd.base_class_array, 0x32e7198);
}

#[test]
fn complete_object_locator_from_works() {
    let col = CompleteObjectLocator::from_bytes(&vec![
        0x01, 0x00, 0x00, 0x00, 0x00, 0x00, 0x00, 0x00, 0x00, 0x00, 0x00, 0x00, 0x98, 0x8e, 0xc6,
        0x03, 0x80, 0x71, 0x2e, 0x03,
    ]);

    assert_eq!(col.signature, 0x1);
    assert_eq!(col.offset, 0x0);
    assert_eq!(col.cd_offset, 0x0);
    assert_eq!(col.type_descriptor, 0x3c68e98);
    assert_eq!(col.class_hierarchy_descriptor, 0x32e7180);
}

#[test]
fn type_descriptor_from_works() {
    let td = TypeDescriptor::from_bytes(&vec![
        0x20, 0x7a, 0x1f, 0x43, 0x01, 0x00, 0x00, 0x00, 0x00, 0x00, 0x00, 0x00, 0x00, 0x00, 0x00,
        0x00, 0x2e, 0x3f, 0x41, 0x56, 0x43, 0x53, 0x47, 0x70, 0x61, 0x72, 0x61, 0x6d, 0x52, 0x65,
        0x70, 0x6f, 0x73, 0x69, 0x74, 0x6f, 0x72, 0x79, 0x49, 0x6d, 0x70, 0x40, 0x43, 0x53, 0x40,
        0x40, 0x00, 0x00, 0x00,
    ]);

    assert_eq!(td.vftable, 0x1431f7a20);
    assert_eq!(td.spare, 0x0);
    assert_eq!(td.name, String::from(".?AVCSGparamRepositoryImp@CS@@"));
}

#[test]
fn base_class_descriptor_from_works() {
    let mut bytes = vec![0u8; 28];
    bytes[0] = 0x44;
    bytes[4] = 0x02;
    bytes[20] = 0x40;
    bytes[24] = 0x99;

    let bcd = BaseClassDescriptor::from_slice(&bytes);

    assert_eq!(bcd.type_descriptor, 0x44);
    assert_eq!(bcd.contained_base_count, 0x2);
    assert_eq!(bcd.attributes, 0x40);
    assert_eq!(bcd.class_hierarchy_descriptor, 0x99);
}

#[test]
fn decorated_symbol_names_are_recognised() {
    assert!(symbol::is_decorated_symbol(".?AVCSGparamRepositoryImp@CS@@"));
    assert!(!symbol::is_decorated_symbol("CS::CSGparamRepositoryImp"));
    assert!(!symbol::is_decorated_symbol(""));
    assert!(!symbol::is_decorated_symbol(".?"));
}

#[test]
fn undecorate_symbol_recovers_the_class_name() {
    let undecorated = symbol::undecorate_symbol(".?AVCSGparamRepositoryImp@CS@@");

    assert_eq!(undecorated, Some(String::from("CS::CSGparamRepositoryImp")));
}

#[test]
fn undecorate_symbol_rejects_other_names() {
    assert_eq!(symbol::undecorate_symbol("CSGparamRepositoryImp"), None);
}
