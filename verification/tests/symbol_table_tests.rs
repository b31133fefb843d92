use tiger::symbol_table::SymbolTable;

#[test]
fn test_add_symbol() {
    let mut env: SymbolTable<String, i32> = SymbolTable::default();
    env.insert("a".to_string(), 5);
    match env.lookup(&"a".to_string()) {
        Some(&v) => assert_eq!(v, 5),
        None => assert!(false, "{}", format!("Error env is: {:#?}", env)),
    }
}
