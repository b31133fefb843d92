use tiger::driver::compiler::{Compiler, CompilerOptions};
use tiger::ir::expr::{
    get_int, get_position, get_simple_var_name, make_simple_var_expr, source_chars, BinaryOpCode,
    LSpan, Span, TDec, TExpr, TField, TNameType, TType, TVar, TVarDec, UnaryOpCode,
};
use tiger::parser::common::{identifier, space0, ParseErr};
use tiger::parser::expr::{
    from_hex, is_character, parse_binary_expr, parse_expr, parse_no_value, parse_number, parse_unary_expr,
};
use tiger::parser::decs::parse_decs;
use tiger::parser::parser::parse_source;
use tiger::parser::ty::parse_type_fields;
use tiger::parser::var::parse_var;
use tiger::symbol_table::SymbolTable;

fn rest_of(r: &Result<(LSpan, TExpr), ParseErr>) -> String {
    match r {
        Ok((rest, _)) => rest.fragment(),
        Err(e) => panic!("parse failed: {:?}", e),
    }
}

#[test]
fn expr_takes_white_space_on_both_sides() {
    let cs = source_chars("  nil   ");
    let r = parse_expr(LSpan::new(&cs));
    assert_eq!(rest_of(&r), "");
    assert_eq!(r.map(|(_, e)| e), Ok(TExpr::Nil));
}

#[test]
fn skipping_white_space_twice_is_skipping_it_once() {
    let cs = source_chars(" \t\r\n x");
    let once = space0(LSpan::new(&cs));
    let twice = space0(once);
    assert_eq!(once.index(), 5);
    assert_eq!(twice.index(), 5);
}

#[test]
fn identifier_takes_the_longest_word() {
    let cs = source_chars("foo_1+x");
    match identifier(LSpan::new(&cs)) {
        Ok((rest, w)) => {
            assert_eq!(w, "foo_1");
            assert_eq!(rest.fragment(), "+x");
        }
        Err(e) => panic!("{:?}", e),
    }
    let cs = source_chars("lettuce");
    match identifier(LSpan::new(&cs)) {
        Ok((_, w)) => assert_eq!(w, "lettuce"),
        Err(e) => panic!("{:?}", e),
    }
}

#[test]
fn identifier_refuses_keywords_and_non_words() {
    for kw in ["var", "function", "array", "let", "in", "end", "nil"] {
        let cs = source_chars(kw);
        assert!(matches!(identifier(LSpan::new(&cs)), Err(ParseErr::Error)), "{}", kw);
    }
    let cs = source_chars("1abc");
    assert!(matches!(identifier(LSpan::new(&cs)), Err(ParseErr::Error)));
    let cs = source_chars("");
    assert!(matches!(identifier(LSpan::new(&cs)), Err(ParseErr::Error)));
}

#[test]
fn comment_contributes_nothing_to_a_module() {
    let with = parse_source("/* note */ type a = int 7").unwrap();
    let without = parse_source("type a = int 7").unwrap();
    assert_eq!(with.decs, without.decs);
    assert_eq!(with.exprs, without.exprs);
    assert_eq!(
        with.decs,
        vec![TDec::TypeDec(vec![TNameType {
            name: "a".to_string(),
            ty: TType::NameType("int".to_string()),
        }])]
    );
    assert_eq!(with.exprs, vec![Box::new(TExpr::Int(7))]);
}

#[test]
fn module_keeps_source_order() {
    let m = parse_source("type a = int 1 type b = string 2").unwrap();
    assert_eq!(
        m.decs,
        vec![
            TDec::TypeDec(vec![TNameType {
                name: "a".to_string(),
                ty: TType::NameType("int".to_string()),
            }]),
            TDec::TypeDec(vec![TNameType {
                name: "b".to_string(),
                ty: TType::NameType("string".to_string()),
            }]),
        ]
    );
    assert_eq!(m.exprs, vec![Box::new(TExpr::Int(1)), Box::new(TExpr::Int(2))]);
}

#[test]
fn module_stops_before_what_does_not_parse() {
    let m = parse_source("1 )").unwrap();
    assert!(m.decs.is_empty());
    assert_eq!(m.exprs, vec![Box::new(TExpr::Int(1))]);
    let m = parse_source("").unwrap();
    assert!(m.decs.is_empty());
    assert!(m.exprs.is_empty());
}

#[test]
fn source_ending_after_var_needs_more_input() {
    assert_eq!(
        parse_source("var ").err().unwrap(),
        "parse_source error:Incomplete(\n    Size(\n        1,\n    ),\n)"
    );
    let cs = source_chars("var  ");
    assert!(matches!(parse_var(LSpan::new(&cs)), Err(ParseErr::Incomplete)));
    let cs = source_chars("variable");
    assert!(matches!(parse_var(LSpan::new(&cs)), Err(ParseErr::Error)));
}

#[test]
fn var_declaration_types() {
    let cs = source_chars("var a := 1");
    match parse_var(LSpan::new(&cs)) {
        Ok((_, TDec::VarDec(TVarDec { name, ty, init, escape, pos: _ }))) => {
            assert_eq!(name, "a");
            assert_eq!(ty, "auto");
            assert_eq!(*init, TExpr::Int(1));
            assert!(!escape);
        }
        _ => panic!("var a := 1"),
    }
    let cs = source_chars("var b:int := 2");
    match parse_var(LSpan::new(&cs)) {
        Ok((_, TDec::VarDec(TVarDec { name, ty, .. }))) => {
            assert_eq!(name, "b");
            assert_eq!(ty, "int");
        }
        _ => panic!("var b:int := 2"),
    }
}

#[test]
fn largest_integer_literal() {
    let cs = source_chars("9223372036854775807");
    match parse_number(LSpan::new(&cs)) {
        Ok((rest, TExpr::Int(n))) => {
            assert_eq!(n, i64::MAX);
            assert_eq!(rest.fragment(), "");
        }
        _ => panic!("i64::MAX"),
    }
    let cs = source_chars("007x");
    match parse_number(LSpan::new(&cs)) {
        Ok((rest, TExpr::Int(n))) => {
            assert_eq!(n, 7);
            assert_eq!(rest.fragment(), "x");
        }
        _ => panic!("007x"),
    }
    let cs = source_chars("x");
    assert!(matches!(parse_number(LSpan::new(&cs)), Err(ParseErr::Error)));
}

#[test]
fn positions_count_bytes_and_lines() {
    let m = parse_source("/*\u{e9}*/ x").unwrap();
    assert_eq!(
        m.exprs,
        vec![Box::new(TExpr::Var(TVar::SimpleVar("x".to_string(), Span { offset: 8, line: 1 })))]
    );
    let m = parse_source("\n\nfoo").unwrap();
    assert_eq!(
        m.exprs,
        vec![Box::new(TExpr::Var(TVar::SimpleVar("foo".to_string(), Span { offset: 5, line: 3 })))]
    );
    let cs = source_chars("a\nb");
    let start = LSpan::new(&cs);
    assert_eq!(start.location_offset(), 0);
    assert_eq!(start.location_line(), 1);
    match get_position(start.advance(2)) {
        Ok((rest, pos)) => {
            assert_eq!(pos, Span { offset: 2, line: 2 });
            assert_eq!(rest.index(), 2);
        }
        Err(e) => panic!("{:?}", e),
    }
    assert_eq!(Span::from_located_span(start.advance(3)), Span { offset: 3, line: 2 });
}

#[test]
fn binary_and_unary_operators() {
    let cs = source_chars("a * b");
    match parse_binary_expr(LSpan::new(&cs)) {
        Ok((_, TExpr::BinaryOp { op_type, left, right, .. })) => {
            assert_eq!(op_type, BinaryOpCode::Plus);
            assert_eq!(get_simple_var_name(&left), "a");
            assert_eq!(get_simple_var_name(&right), "b");
        }
        _ => panic!("a * b"),
    }
    let cs = source_chars("& x");
    match parse_unary_expr(LSpan::new(&cs)) {
        Ok((_, TExpr::UnaryOp { op_type, value, .. })) => {
            assert_eq!(op_type, UnaryOpCode::Neg);
            assert_eq!(get_simple_var_name(&value), "x");
        }
        _ => panic!("& x"),
    }
}

#[test]
fn no_value_expression() {
    let cs = source_chars(" ( ) rest");
    match parse_no_value(LSpan::new(&cs)) {
        Ok((rest, e)) => {
            assert_eq!(e, TExpr::Nil);
            assert_eq!(rest.fragment(), " rest");
        }
        Err(e) => panic!("{:?}", e),
    }
    let cs = source_chars("(x)");
    assert!(matches!(parse_no_value(LSpan::new(&cs)), Err(ParseErr::Error)));
}

#[test]
fn character_class_reads_the_low_byte() {
    assert!(is_character('a'));
    assert!(is_character('Z'));
    assert!(is_character('7'));
    assert!(!is_character('_'));
    assert!(!is_character(' '));
    assert!(!is_character('\u{100}'));
    assert!(is_character('\u{171}'));
}

#[test]
fn simple_var_names_and_ints() {
    let e = make_simple_var_expr("x");
    assert_eq!(*e, TExpr::Var(TVar::SimpleVar("x".to_string(), Span::default())));
    assert_eq!(get_simple_var_name(&e), "x");
    assert_eq!(get_simple_var_name(&TExpr::Int(3)), "error:should be var");
    let field = TExpr::Var(TVar::FieldVar(
        Box::new(TVar::SimpleVar("r".to_string(), Span::default())),
        "f".to_string(),
        Span::default(),
    ));
    assert_eq!(get_simple_var_name(&field), "error:should be simple var");
    assert_eq!(get_int(&TExpr::Int(-4)), -4);
    assert_eq!(Span::default(), Span { offset: 0, line: 0 });
}

#[test]
fn compiler_options_need_a_source() {
    let _compiler = Compiler::new();
    match CompilerOptions::new(None) {
        Err(msg) => assert_eq!(msg, "no source file specified"),
        Ok(_) => panic!("no source"),
    }
    match CompilerOptions::new(Some("prog.tig".to_string())) {
        Ok(options) => assert_eq!(options.path(), "prog.tig"),
        Err(msg) => panic!("{}", msg),
    }
}

#[test]
fn symbol_table_insert_replaces_and_reports() {
    let mut env: SymbolTable<u64, i32> = SymbolTable::default();
    assert_eq!(env.lookup(&1), None);
    assert_eq!(env.insert(1, 5), None);
    assert_eq!(env.insert(2, 9), None);
    assert_eq!(env.insert(1, 6), Some(5));
    assert_eq!(env.lookup(&1), Some(&6));
    assert_eq!(env.lookup(&2), Some(&9));
    assert_eq!(env.lookup(&3), None);
}

#[test]
fn decimal_bytes() {
    assert_eq!(from_hex("255"), Ok(255));
    assert_eq!(from_hex("+7"), Ok(7));
    assert_eq!(from_hex("007"), Ok(7));
    assert!(from_hex("256").is_err());
    assert!(from_hex("-1").is_err());
    assert!(from_hex("").is_err());
    assert!(from_hex("+").is_err());
    assert!(from_hex("1a").is_err());
    assert!(from_hex(" 1").is_err());
}

#[test]
fn type_fields_take_white_space_around_each_field() {
    let cs = source_chars("  a : int ,b:string  )");
    match parse_type_fields(LSpan::new(&cs)) {
        Ok((rest, fields)) => {
            assert_eq!(
                fields,
                vec![
                    TField { name: "a".to_string(), ty: "int".to_string(), pos: Span::default() },
                    TField { name: "b".to_string(), ty: "string".to_string(), pos: Span::default() },
                ]
            );
            assert_eq!(rest.fragment(), ")");
        }
        Err(e) => panic!("{:?}", e),
    }
    let cs = source_chars(")");
    match parse_type_fields(LSpan::new(&cs)) {
        Ok((rest, fields)) => {
            assert!(fields.is_empty());
            assert_eq!(rest.fragment(), ")");
        }
        Err(e) => panic!("{:?}", e),
    }
    let cs = source_chars("a:int, )");
    match parse_type_fields(LSpan::new(&cs)) {
        Ok((rest, fields)) => {
            assert_eq!(fields.len(), 1);
            assert_eq!(rest.fragment(), ", )");
        }
        Err(e) => panic!("{:?}", e),
    }
}

#[test]
fn array_creation_without_brackets_falls_back_to_a_name() {
    for text in ["a letvar ", "a let var", "a 99999999999999999999", "a 5 of letvar ", "a x of 1"] {
        let cs = source_chars(text);
        match parse_expr(LSpan::new(&cs)) {
            Ok((_, e)) => {
                assert_eq!(e, TExpr::Var(TVar::SimpleVar("a".to_string(), Span { offset: 1, line: 1 })), "{}", text)
            }
            Err(e) => panic!("{}: {:?}", text, e),
        }
    }
    let cs = source_chars(" int 5 of 1");
    match parse_expr(LSpan::new(&cs)) {
        Ok((_, TExpr::Array { item_type, size, init, .. })) => {
            assert_eq!(item_type, "int");
            assert_eq!(*size, TExpr::Int(5));
            assert_eq!(*init, TExpr::Int(1));
        }
        _ => panic!("int 5 of 1"),
    }
}

#[test]
fn declarations_never_fail_recoverably() {
    use_decs("", 0);
    use_decs("1 + 2", 0);
    use_decs("type a = int type b = string", 2);
}

fn use_decs(text: &str, count: usize) {
    let cs = source_chars(text);
    match parse_decs(LSpan::new(&cs)) {
        Ok((_, ds)) => assert_eq!(ds.len(), count, "{}", text),
        Err(e) => panic!("{}: {:?}", text, e),
    }
}
