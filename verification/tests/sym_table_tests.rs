use minilang::sym_table::{SymbolError, SymbolTable, SymbolType};

#[test]
fn duplicate_definition_fails_and_leaves_the_first_untouched() {
    let mut table = SymbolTable::new();
    assert!(table.add_symbol("x".to_string(), SymbolType::Variable, 4).is_ok());
    let err = table.add_symbol("x".to_string(), SymbolType::Variable, 4).unwrap_err();
    let SymbolError::SymbolAlreadyDefined(name) = &err;
    assert_eq!(name, "x");
    assert_eq!(err.message(), "Symbol 'x' already defined");
    let sym = table.get_symbol("x").unwrap();
    assert_eq!(sym.memory_location, 0);
    assert_eq!(sym.size, 4);
}

#[test]
fn offsets_tile_storage_in_declaration_order() {
    let mut table = SymbolTable::new();
    table.add_symbol("a".to_string(), SymbolType::Variable, 4).unwrap();
    table.add_symbol("b".to_string(), SymbolType::Array, 8).unwrap();
    table.add_symbol("c".to_string(), SymbolType::Constant, 2).unwrap();
    assert_eq!(table.get_symbol("a").unwrap().memory_location, 0);
    assert_eq!(table.get_symbol("b").unwrap().memory_location, 4);
    assert_eq!(table.get_symbol("c").unwrap().memory_location, 12);
}

#[test]
fn scope_depth_tags_new_symbols() {
    let mut table = SymbolTable::new();
    table.add_symbol("outer".to_string(), SymbolType::Variable, 1).unwrap();
    table.enter_scope();
    table.enter_scope();
    table.add_symbol("inner".to_string(), SymbolType::Variable, 1).unwrap();
    table.exit_scope();
    assert_eq!(table.get_symbol("outer").unwrap().scope, 0);
    assert_eq!(table.get_symbol("inner").unwrap().scope, 2);
}

#[test]
fn the_table_is_flat_across_scopes() {
    // one namespace: a name clashes even from a deeper scope
    let mut table = SymbolTable::new();
    table.add_symbol("n".to_string(), SymbolType::Variable, 4).unwrap();
    table.enter_scope();
    assert!(table.add_symbol("n".to_string(), SymbolType::Variable, 4).is_err());
}

#[test]
fn missing_names_are_not_found() {
    let table = SymbolTable::new();
    assert!(table.get_symbol("ghostly").is_none());
}

#[test]
fn symbols_keep_their_declared_kind() {
    let mut table = SymbolTable::new();
    table.add_symbol("f".to_string(), SymbolType::Function, 0).unwrap();
    assert_eq!(table.get_symbol("f").unwrap().sym_type, SymbolType::Function);
}
