use compiler::ast::Type;
use compiler::symbols::{StringInterner, SymbolHash, Vardata};

#[test]
fn interner_numbers_names_in_order_of_first_use() {
    let mut s = StringInterner::new();
    assert_eq!(s.len(), 0);
    assert_eq!(s.itern("a".to_string()), 0);
    assert_eq!(s.itern("b".to_string()), 1);
    assert_eq!(s.itern("a".to_string()), 0);
    assert_eq!(s.itern("c".to_string()), 2);
    assert_eq!(s.len(), 3);
    assert_eq!(s.lookup(&"b".to_string()), 1);
    assert_eq!(s.name(2), "c");
    assert!(s.contains(&"a".to_string()));
    assert!(!s.contains(&"d".to_string()));
}

#[test]
fn symbol_hash_keeps_the_last_saved_storage() {
    let mut h = SymbolHash::new();
    assert_eq!(h.get_var(0), None);
    h.save(Vardata { ty: Type::Int, ptr: 6 }, 0);
    h.save(Vardata { ty: Type::Str, ptr: 9 }, 3);
    assert_eq!(h.get_var(0), Some(Vardata { ty: Type::Int, ptr: 6 }));
    assert_eq!(h.get_var(3), Some(Vardata { ty: Type::Str, ptr: 9 }));
    h.save(Vardata { ty: Type::Float, ptr: 11 }, 0);
    assert_eq!(h.get_var(0), Some(Vardata { ty: Type::Float, ptr: 11 }));
    assert_eq!(h.get_var(1), None);
}
