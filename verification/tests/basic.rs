use mod2lib::add;
use mod2lib::format::format_named_list;
use mod2lib::narrowing_variable_info::NarrowingVariableInfo;
use mod2lib::sort::{Sort, SortCollection};
use mod2lib::string_join::{join_iter, join_string, u64_to_string};
use mod2lib::symbol::{Arity, Symbol, SymbolType};
use mod2lib::term::FreeTerm;
use mod2lib::variable::{Variable, VariableType};

#[test]
fn it_works() {
    let result = add(2, 2);
    assert_eq!(result, 4);
}

#[test]
fn join_iter_test() {
    let items = vec![1, 3, 5, 7, 9];
    let joined = format!("{:?}", join_iter(&items, |v| v - 1));
    assert_eq!(joined, "[1, 2, 3, 4, 5, 6, 7, 8, 9]");

    let words = vec!["Hello", "World"];
    let sep = ", ";
    let joined = format!("{:?}", join_iter(&words, |_| sep).concat());
    assert_eq!(joined, "\"Hello, World\"");
}

#[test]
fn join_string_test() {
    let list = vec![1, 3, 5, 7, 9];
    let sep = ", ";
    let joined = join_string(&list, sep);
    assert_eq!(joined, "1, 3, 5, 7, 9");
}

#[test]
fn test_free_term() {}

#[test]
fn free_term_holds_symbol() {
    let t = FreeTerm::new(7);
    assert_eq!(t.core.symbol(), 7);
    assert!(t.args.is_empty());
    assert!(!t.core.is_stable());
    assert!(t.core.ground());
}

#[test]
fn decimal_rendering() {
    assert_eq!(u64_to_string(0), "0");
    assert_eq!(u64_to_string(42), "42");
    assert_eq!(u64_to_string(1234567890), "1234567890");
}

#[test]
fn symbol_hash_orders_consistently() {
    let f = Symbol::new("f".to_string(), Arity::Value(2));
    let g = Symbol::new("g".to_string(), Arity::Value(2));
    assert_eq!(f.compare(&f), 0);
    let fg = f.compare(&g);
    let gf = g.compare(&f);
    assert_eq!(fg, -gf);
    assert!(!f.is_variable());
    assert_eq!(f.symbol_type, SymbolType::Standard);
}

#[test]
fn symbol_hash_is_deterministic() {
    let a = Symbol::new("some longer symbol name".to_string(), Arity::Value(3));
    let b = Symbol::new("some longer symbol name".to_string(), Arity::Value(3));
    assert_eq!(a.hash_value, b.hash_value);
}

#[test]
fn symbol_hash_packs_arity() {
    // Same name, different arity: the packed hash differs in the high bits,
    // so symbols order first by arity.
    let one = Symbol::new("f".to_string(), Arity::Value(1));
    let two = Symbol::new("f".to_string(), Arity::Value(2));
    assert_eq!(one.hash_value >> 24, 1);
    assert_eq!(two.hash_value >> 24, 2);
    assert_eq!(one.compare(&two), -1);
}

#[test]
fn sort_collection_deduplicates() {
    let mut sorts = SortCollection::new();
    let a = sorts.get_or_create_sort("Nat".to_string());
    let b = sorts.get_or_create_sort("Bool".to_string());
    let c = sorts.get_or_create_sort("Nat".to_string());
    assert_eq!(a, c);
    assert_ne!(a, b);
    assert_eq!(sorts.len(), 2);
    assert_eq!(sorts.iter(), vec![0, 1]);
}

#[test]
fn create_implicit_sorts_covers_names() {
    let mut sorts = SortCollection::new();
    let names = vec!["X".to_string(), "Y".to_string(), "X".to_string()];
    sorts.create_implicit_sorts(&names);
    assert_eq!(sorts.len(), 2);
}

#[test]
fn special_sort_arities() {
    assert_eq!(Sort::new("Any".to_string()).arity(), Arity::Any);
    assert_eq!(Sort::new("None".to_string()).arity(), Arity::Nil);
    assert_eq!(Sort::new("Nat".to_string()).arity(), Arity::Value(0));
}

#[test]
fn subsort_insertion_is_antisymmetric() {
    let mut sorts = SortCollection::new();
    let nat = sorts.get_or_create_sort("Nat".to_string());
    let int = sorts.get_or_create_sort("Int".to_string());
    sorts.insert_subsort(int, nat);
    assert_eq!(sorts.sorts[int].subsorts, vec![nat]);
    assert_eq!(sorts.sorts[nat].supersorts, vec![int]);
}

#[test]
fn variable_rendering() {
    let v = Variable { symbol: 0, variable_type: VariableType::Blank };
    assert_eq!(v.repr("x"), "x_");
    let v = Variable { symbol: 0, variable_type: VariableType::Sequence };
    assert_eq!(v.repr("x"), "x__");
    let v = Variable { symbol: 0, variable_type: VariableType::NullSequence };
    assert_eq!(v.repr("x"), "x___");
}

#[test]
fn narrowing_variable_registry() {
    let mut info = NarrowingVariableInfo::new();
    assert_eq!(info.variable_count(), 0);
    let i = info.variable_to_index(42);
    let j = info.variable_to_index(7);
    let again = info.variable_to_index(42);
    assert_eq!(i, again);
    assert_ne!(i, j);
    assert_eq!(info.variable_count(), 2);
    assert_eq!(info.index_to_variable(i), Some(42));
    assert_eq!(info.index_to_variable(99), None);
    assert_eq!(info.iter(), vec![(0, 42), (1, 7)]);
}

#[test]
fn named_list_rendering() {
    let items = vec!["one".to_string(), "two".to_string()];
    let rendered = format_named_list("> ", "things", &items);
    assert_eq!(rendered, "> things: [\n>   one\n>   two\n> ]\n");
}
