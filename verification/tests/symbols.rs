use tinyc::error::CompileError;
use tinyc::symbol::{are_kinds_equal, CategorySymbol, SymbolTable, MAX_SYMBOL_INDEX};

#[test]
fn kinds_compare() {
    assert!(are_kinds_equal(CategorySymbol::Variable, CategorySymbol::Variable));
    assert!(are_kinds_equal(CategorySymbol::Function, CategorySymbol::Function));
    assert!(!are_kinds_equal(CategorySymbol::Variable, CategorySymbol::Function));
    assert!(!are_kinds_equal(CategorySymbol::Function, CategorySymbol::Variable));
}

#[test]
fn an_empty_table() {
    let table = SymbolTable::new();
    assert!(table.symbol.is_empty());
    assert_eq!(table.offset, 2);
    assert_eq!(table.lookup(b"a", b""), None);
    assert_eq!(MAX_SYMBOL_INDEX, 100);
}

#[test]
fn a_function_owns_itself_and_its_variables() {
    let mut table = SymbolTable::new();
    assert_eq!(table.insert_symbol(CategorySymbol::Function, b"f"), Ok(()));
    table.set_address(0, 1);
    assert_eq!(table.insert_symbol(CategorySymbol::Variable, b"a"), Ok(()));
    assert_eq!(table.insert_symbol(CategorySymbol::Variable, b"b"), Ok(()));
    table.set_arity(0, 2);
    assert_eq!(table.symbol.len(), 3);
    assert_eq!(table.symbol[0].name, b"f".to_vec());
    assert_eq!(table.symbol[0].kind, CategorySymbol::Function);
    assert_eq!(table.symbol[0].action_function, b"f".to_vec());
    assert_eq!(table.symbol[0].address, 1);
    assert_eq!(table.symbol[0].var_num, 2);
    assert_eq!(table.symbol[1].kind, CategorySymbol::Variable);
    assert_eq!(table.symbol[1].action_function, b"f".to_vec());
    assert_eq!(table.symbol[1].address, 2);
    assert_eq!(table.symbol[1].var_num, 0);
    assert_eq!(table.symbol[2].address, 3);
    assert_eq!(table.offset, 4);
    assert_eq!(table.last_defined_function, b"f".to_vec());
    assert_eq!(table.lookup(b"f", b"f"), Some(0));
    assert_eq!(table.lookup(b"a", b"f"), Some(1));
    assert_eq!(table.lookup(b"b", b"f"), Some(2));
    assert_eq!(table.lookup(b"a", b"g"), None);
    assert_eq!(table.lookup(b"c", b"f"), None);
}

#[test]
fn a_name_is_free_in_another_function() {
    let mut table = SymbolTable::new();
    table.insert_symbol(CategorySymbol::Function, b"f").unwrap();
    assert_eq!(table.insert_symbol(CategorySymbol::Variable, b"x"), Ok(()));
    assert_eq!(
        table.insert_symbol(CategorySymbol::Variable, b"x"),
        Err(CompileError::VariableRedefined)
    );
    table.insert_symbol(CategorySymbol::Function, b"g").unwrap();
    table.offset = 2;
    assert_eq!(table.insert_symbol(CategorySymbol::Variable, b"x"), Ok(()));
    assert_eq!(
        table.insert_symbol(CategorySymbol::Variable, b"x"),
        Err(CompileError::VariableRedefined)
    );
    assert_eq!(table.lookup(b"x", b"f"), Some(1));
    assert_eq!(table.lookup(b"x", b"g"), Some(3));
    assert_eq!(table.symbol[1].address, 2);
    assert_eq!(table.symbol[3].address, 2);
}

#[test]
fn a_function_name_is_taken_in_every_scope() {
    let mut table = SymbolTable::new();
    table.insert_symbol(CategorySymbol::Function, b"f").unwrap();
    table.insert_symbol(CategorySymbol::Function, b"g").unwrap();
    assert_eq!(
        table.insert_symbol(CategorySymbol::Function, b"f"),
        Err(CompileError::FunctionRedefined)
    );
    assert_eq!(table.insert_symbol(CategorySymbol::Variable, b"f"), Ok(()));
    assert_eq!(table.insert_symbol(CategorySymbol::Variable, b"g"), Ok(()));
    assert_eq!(table.lookup(b"g", b"g"), Some(1));
    assert_eq!(table.lookup(b"f", b"g"), Some(2));
}

#[test]
fn a_full_table_takes_no_symbol() {
    let mut table = SymbolTable::new();
    table.insert_symbol(CategorySymbol::Function, b"f").unwrap();
    for i in 0..99 {
        let name = format!("v{}", i);
        assert_eq!(table.insert_symbol(CategorySymbol::Variable, name.as_bytes()), Ok(()));
    }
    assert_eq!(table.symbol.len(), 100);
    assert_eq!(
        table.insert_symbol(CategorySymbol::Variable, b"last"),
        Err(CompileError::SymbolTableFull)
    );
    assert_eq!(
        table.insert_symbol(CategorySymbol::Function, b"g"),
        Err(CompileError::SymbolTableFull)
    );
    assert_eq!(
        table.insert_symbol(CategorySymbol::Variable, b"v0"),
        Err(CompileError::SymbolTableFull)
    );
    assert_eq!(table.symbol.len(), 100);
}
