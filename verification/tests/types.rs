use std::hash::{Hash, Hasher};

use blang::analyze::semantics::types::{
    hash_path, ParsedType, Primitive, Sign, TypeId, TypeInfo, TypeKind, TypeMap,
};
use rustc_hash::FxHasher;

fn info(kind: TypeKind, size: u64) -> TypeInfo {
    TypeInfo { kind, size }
}

#[test]
fn primitive_names() {
    let all = [
        ("i64", Primitive::I64),
        ("u64", Primitive::U64),
        ("char", Primitive::Char),
        ("bool", Primitive::Bool),
        ("()", Primitive::Unit),
    ];
    for (name, primitive) in all {
        assert_eq!(primitive.name(), name);
    }
    assert!(Primitive::parse("i64") == Some(Primitive::I64));
    assert!(Primitive::parse("u64") == Some(Primitive::U64));
    assert!(Primitive::parse("bool") == Some(Primitive::Bool));
    assert!(Primitive::parse("char") == Some(Primitive::Char));
    assert!(Primitive::parse("i32").is_none());
    assert!(Primitive::I64.sign() == Some(Sign::Signed));
    assert!(Primitive::U64.sign() == Some(Sign::Unsigned));
    assert!(Primitive::Bool.sign().is_none());
}

#[test]
fn types_are_known_by_hashes() {
    let mut hasher = FxHasher::default();
    "app::Point".hash(&mut hasher);
    assert_eq!(hash_path("app::Point"), hasher.finish());
    assert!(TypeId::i64() != TypeId::u64());
    assert!(TypeId::from_path("a") != TypeId::from_path("b"));
    assert!(TypeId::char_ptr() == TypeId::char().to_ptr_type());
    assert!(TypeId::from_primitive(Primitive::Bool) == TypeId::bool());
    assert!(TypeId::from_parsed(&ParsedType::read("u64")) == TypeId::u64());
    assert!(TypeId::from_parsed(&ParsedType::read("S")) == TypeId::from_path("S"));
}

#[test]
fn compatible_types() {
    assert!(TypeId::i64().compatible_with(TypeId::u64()));
    assert!(TypeId::u64().compatible_with(TypeId::u64()));
    assert!(!TypeId::i64().compatible_with(TypeId::bool()));
}

#[test]
fn parsed_types_are_shown() {
    assert_eq!(ParsedType::read("i64").show(), "i64");
    assert_eq!(ParsedType::read("a::B").show(), "a::B");
    assert!(ParsedType::read("i64").sign() == Some(Sign::Signed));
    assert!(ParsedType::read("a::B").sign().is_none());
}

#[test]
fn pointers_and_members() {
    let mut types = TypeMap::new();
    types.insert(TypeId::u64(), info(TypeKind::Primitive(Primitive::U64), 8));
    types.insert(TypeId::bool(), info(TypeKind::Primitive(Primitive::Bool), 1));
    let ptr = types.ptr_type_to(TypeId::u64());
    assert!(ptr == TypeId::u64().to_ptr_type());
    assert_eq!(types.size_of(ptr), 8);
    assert!(types.get(ptr).is_ptr());
    assert!(types.get(ptr).deref_type() == Some(TypeId::u64()));
    assert!(types.get(TypeId::u64()).deref_type().is_none());
    assert!(types.get(TypeId::u64()).sign() == Some(Sign::Unsigned));
    assert_eq!(types.display(ptr).show(), "*u64");
    assert_eq!(types.display(TypeId::bool()).show(), "bool");
    assert!(types.find(TypeId::from_path("none")).is_none());
}

#[test]
fn what_is_known_stays() {
    let mut types = TypeMap::new();
    let first = types.get_or_insert_with(TypeId::bool(), || {
        info(TypeKind::Primitive(Primitive::Bool), 1)
    });
    assert_eq!(first.size, 1);
    let second = types.get_or_insert_with(TypeId::bool(), || {
        info(TypeKind::Primitive(Primitive::U64), 8)
    });
    assert_eq!(second.size, 1);
    assert_eq!(types.size_of(TypeId::bool()), 1);
}

#[test]
fn primitive_types_have_different_identities() {
    let all = [
        Primitive::Unit,
        Primitive::I8,
        Primitive::I64,
        Primitive::U8,
        Primitive::U64,
        Primitive::Char,
        Primitive::Bool,
    ];
    for (i, p) in all.iter().enumerate() {
        let mut hasher = FxHasher::default();
        p.hash(&mut hasher);
        assert_eq!(TypeId::from_primitive(*p).0, hasher.finish());
        for q in &all[i + 1..] {
            assert!(TypeId::from_primitive(*p) != TypeId::from_primitive(*q));
        }
    }
    assert_eq!(TypeId::unit().0, 0);
    assert!(!TypeId::bool().compatible_with(TypeId::bool()));
    let mut hasher = FxHasher::default();
    hasher.write_u64(TypeId::char().0);
    hasher.write_u64(1779033703);
    assert_eq!(TypeId::char_ptr().0, hasher.finish());
}
