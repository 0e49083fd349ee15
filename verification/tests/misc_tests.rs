use byte_scanner::allocations::get_memory_page_range;
use byte_scanner::hierarchy;
use byte_scanner::hierarchy::TypeInfoSymbol;
use byte_scanner::module::{get_module_pointer_belongs_to, Module};
use byte_scanner::memorylog::{AccessEvent, MemoryEvent, ReservationEvent, Session};
use byte_scanner::profile::{Profile, SignatureEntry, SignatureEntryMethod};
use byte_scanner::rtti_cache::VftableCache;

#[test]
fn page_range_contains_its_pointer() {
    let range = get_memory_page_range(4096 * 7 + 123);

    assert_eq!(range.start, 4096 * 7);
    assert_eq!(range.end, 4096 * 8);
}

#[test]
fn module_lookup_finds_the_first_containing_module() {
    let modules = vec![
        Module { name: String::from("a.dll"), memory_range: 0x1000..0x2000 },
        Module { name: String::from("b.dll"), memory_range: 0x2000..0x3000 },
    ];
    let found = get_module_pointer_belongs_to(modules, 0x2800).unwrap();

    assert_eq!(found.name, String::from("b.dll"));
}

#[test]
fn module_lookup_misses_outside_every_module() {
    let modules = vec![Module { name: String::from("a.dll"), memory_range: 0x1000..0x2000 }];

    assert!(get_module_pointer_belongs_to(modules, 0x4000).is_none());
}

#[test]
fn hierarchy_symbol_heuristic_works() {
    assert!(hierarchy::is_decorated_symbol(".?AVFoo@@"));
    assert!(!hierarchy::is_decorated_symbol("Foo"));

    let blank = TypeInfoSymbol::default();
    assert_eq!(blank.name, String::new());
    assert_eq!(blank.namespaces.len(), 0);
}

#[test]
fn profile_entries_carry_their_method() {
    let profile = Profile {
        entries: vec![SignatureEntry {
            key: String::from("spawn"),
            signature: String::from("B7 ?? CF"),
            method: SignatureEntryMethod::CaptureTarget,
        }],
    };

    assert_eq!(profile.entries.len(), 1);
    assert!(matches!(profile.entries[0].method, SignatureEntryMethod::CaptureTarget));
}

#[test]
fn memory_events_hold_their_payload() {
    let event = MemoryEvent::Reserve(ReservationEvent { ptr: 64, size: 4096, alignment: 16 });
    assert!(matches!(event, MemoryEvent::Reserve(r) if r.size == 4096));

    let session = Session {
        index: 1,
        range: 0..4096,
        events: vec![AccessEvent {
            instruction_address: 0x401000,
            instruction_bytes: vec![0x48, 0x89],
            access_address: 0x1000,
            data_after: vec![0xFF],
            is_write: true,
        }],
    };
    assert_eq!(session.events.len(), 1);
    assert!(session.events[0].is_write);
}

#[test]
fn into_parts_splits_on_namespace_separators() {
    let parts = hierarchy::into_parts(String::from("CS::GparamRepository"));
    assert_eq!(parts, vec![String::from("CS"), String::from("GparamRepository")]);
}

#[test]
fn into_parts_keeps_balanced_generics_together() {
    let parts = hierarchy::into_parts(String::from("Foo<Bar::Baz>::quux"));
    assert_eq!(parts, vec![String::from("Foo<Bar::Baz>"), String::from("quux")]);
}

#[test]
fn into_parts_drops_an_unbalanced_tail() {
    let parts = hierarchy::into_parts(String::from("A<::B"));
    assert_eq!(parts, Vec::<String>::new());
}

#[test]
fn type_info_symbol_from_splits_name_and_namespaces() {
    let symbol = TypeInfoSymbol::from(".?AVCSGparamRepositoryImp@CS@@");

    assert_eq!(symbol.name, String::from("CSGparamRepositoryImp"));
    assert_eq!(symbol.namespaces, vec![String::from("CS")]);
}

#[test]
fn type_info_symbol_from_rejects_other_names() {
    let symbol = TypeInfoSymbol::from("plain_name");

    assert_eq!(symbol.name, String::new());
    assert_eq!(symbol.namespaces.len(), 0);
}

#[test]
fn vftable_cache_remembers_lookups() {
    let mut cache = VftableCache::new();
    assert!(cache.get_cache_entry(0x1000).is_none());

    cache.mark_as_vftable(0x1000, String::from(".?AVFoo@@"));
    cache.mark_as_non_vftable(0x2000);

    let hit = cache.get_cache_entry(0x1000).unwrap();
    assert!(hit.is_vftable);
    assert_eq!(hit.name, Some(String::from(".?AVFoo@@")));

    let miss = cache.get_cache_entry(0x2000).unwrap();
    assert!(!miss.is_vftable);
    assert_eq!(miss.name, None);
}
