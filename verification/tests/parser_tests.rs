use tiger::ir::expr::{
    get_int, get_simple_var_name, source_chars, BinaryOpCode, LSpan, Span, TDec, TExpr, TField,
    TFor, TNameType, TSourceBlock, TType, TVar, TVarDec, UnaryOpCode,
};
use tiger::parser::common::identifier;
use tiger::parser::decs::parse_type_dec;
use tiger::parser::expr::{
    parse_assign, parse_binary_expr, parse_call, parse_create_array, parse_create_record_var,
    parse_for, parse_if, parse_let, parse_nil, parse_number, parse_string, parse_unary_expr,
    parse_while,
};
use tiger::parser::fun::parse_fun;
use tiger::parser::parser::parse_comment;
use tiger::parser::ty::{parse_array_type, parse_name_type, parse_record_type};
use tiger::parser::var::parse_var;

fn assert_true_id(i: &str) {
    let cs = source_chars(i);
    match identifier(LSpan::new(&cs)) {
        Ok((_l, s)) => {
            assert_eq!(s, i)
        }
        Err(_) => {
            assert!(false)
        }
    }
}

#[test]
fn test_identifier() {
    assert_true_id("name");
    assert_true_id("name123");
    assert_true_id("name_123");
    assert_true_id("name_123_");
    assert_true_id("_name_123_");
}

fn assert_type_dec(i: &str, o: TDec) {
    let cs = source_chars(i);
    match parse_type_dec(LSpan::new(&cs)) {
        Ok((_l, res)) => {
            assert_eq!(res, o)
        }
        Err(_) => {
            assert!(false)
        }
    }
}

#[test]
fn test_parse_type_dec() {
    assert_type_dec(
        "type a = int",
        TDec::TypeDec(vec![TNameType {
            name: "a".to_string(),
            ty: TType::NameType("int".to_string()),
        }]),
    )
}

fn assert_nil(i: &str) {
    let cs = source_chars(i);
    match parse_nil(LSpan::new(&cs)) {
        Ok(_) => assert!(true),
        _ => assert!(false),
    }
}

#[test]
fn test_parse_nil() {
    assert_nil("nil");
    assert_nil(" nil");
}

fn assert_call(i: &str, id: &str) {
    let cs = source_chars(i);
    match parse_call(LSpan::new(&cs)) {
        Ok((_, TExpr::Call { fun, args: _, pos: _ })) => {
            assert_eq!(fun, id.to_string())
        }
        _ => {
            assert!(false)
        }
    }
}

#[test]
fn test_parse_call() {
    assert_call("foo()", "foo");
}

fn assert_num(i: &str, num: i64) {
    let cs = source_chars(i);
    match parse_number(LSpan::new(&cs)) {
        Ok((_, TExpr::Int(n))) => {
            assert_eq!(n, num)
        }
        _ => {
            assert!(false)
        }
    }
}

#[test]
fn test_parse_num() {
    assert_num("233", 233);
}

fn assert_string(i: &str, string: &str) {
    let cs = source_chars(i);
    match parse_string(LSpan::new(&cs)) {
        Ok((_, TExpr::String(s, _pos))) => {
            assert_eq!(s, string)
        }
        def => {
            assert!(false, "should:{} in fact:{:?}", string, def.map(|(_, e)| e))
        }
    }
}

#[test]
fn test_parse_string() {
    assert_string("\"this is some string\"", "this is some string");
}

fn assert_binary_id(i: &str, op: BinaryOpCode, left_v: &str, right_v: &str) {
    let cs = source_chars(i);
    match parse_binary_expr(LSpan::new(&cs)) {
        Ok((_, TExpr::BinaryOp { op_type, left, right, pos: _ })) => {
            assert_eq!(op_type, op);
            assert_eq!(get_simple_var_name(left.as_ref()), left_v);
            assert_eq!(get_simple_var_name(right.as_ref()), right_v);
        }
        res => {
            println!("{:?} {:?}", i, res.map(|(_, e)| e));
            assert!(false)
        }
    }
}

#[test]
fn test_parse_binary() {
    assert_binary_id("a + b", BinaryOpCode::Plus, "a", "b");
}

fn assert_unary(i: &str, op: UnaryOpCode, id: &str) {
    let cs = source_chars(i);
    match parse_unary_expr(LSpan::new(&cs)) {
        Ok((_, TExpr::UnaryOp { op_type, value, pos: _ })) => {
            assert_eq!(op_type, op);
            assert_eq!(get_simple_var_name(value.as_ref()), id);
        }
        res => {
            println!("{:?} {:?}", i, res.map(|(_, e)| e));
            assert!(false)
        }
    }
}

#[test]
fn test_parse_unary() {
    assert_unary("- foo", UnaryOpCode::Neg, "foo");
}

fn assert_create_record_var(i: &str, name: &str) {
    let cs = source_chars(i);
    match parse_create_record_var(LSpan::new(&cs)) {
        Ok((_, TExpr::Var(TVar::SimpleVar(id, _pos)))) => {
            assert_eq!(id, name)
        }
        res => {
            println!("{:?} {:?}", i, res.map(|(_, e)| e));
            assert!(false)
        }
    }
}

#[test]
fn test_parse_create_record_var() {
    assert_create_record_var("foo{ a=5, b =m}", "foo");
}

fn assert_create_array(i: &str, arr_type: &str, arr_size: i64, arr_init: i64) {
    let cs = source_chars(i);
    match parse_create_array(LSpan::new(&cs)) {
        Ok((_, TExpr::Array { item_type, size, init, pos: _ })) => {
            assert_eq!(item_type, arr_type);
            assert_eq!(get_int(size.as_ref()), arr_size);
            assert_eq!(get_int(init.as_ref()), arr_init);
        }
        res => {
            println!("{:?} {:?}", i, res.map(|(_, e)| e));
            assert!(false)
        }
    }
}

#[test]
fn test_parse_create_array() {
    assert_create_array(" int 5 of 1", "int", 5, 1);
}

fn assert_assign_string(i: &str, l_var: &str, exp: &str) {
    let cs = source_chars(i);
    match parse_assign(LSpan::new(&cs)) {
        Ok((_, TExpr::Assign { var: TVar::SimpleVar(var, _), expr, pos: _ })) => match *expr {
            TExpr::String(str, _) => {
                assert_eq!(var, l_var);
                assert_eq!(str, exp)
            }
            other => {
                println!("{:?} {:?}", i, other);
                assert!(false)
            }
        },
        res => {
            println!("{:?} {:?}", i, res.map(|(_, e)| e));
            assert!(false)
        }
    }
}

#[test]
fn test_parse_assign() {
    assert_assign_string(" foo := \"str\"", "foo", "str");
}

fn assert_if(i: &str, cond_v: &str, if_expr_v: &str, else_expr_v: &str) {
    let cs = source_chars(i);
    match parse_if(LSpan::new(&cs)) {
        Ok((_, TExpr::If { cond, if_expr, else_expr, pos: _ })) => {
            assert_eq!(get_simple_var_name(cond.as_ref()), cond_v);
            assert_eq!(get_simple_var_name(if_expr.as_ref()), if_expr_v);
            assert_eq!(get_simple_var_name(else_expr.as_ref()), else_expr_v);
        }
        res => {
            println!("{:?} {:?}", i, res.map(|(_, e)| e));
            assert!(false)
        }
    }
}

#[test]
fn test_parse_if() {
    assert_if(" if a then b else c", "a", "b", "c");
}

fn assert_while(i: &str, cond_v: &str) {
    let cs = source_chars(i);
    match parse_while(LSpan::new(&cs)) {
        Ok((_, TExpr::While { cond, body: _, pos: _ })) => {
            assert_eq!(get_simple_var_name(cond.as_ref()), cond_v);
        }
        res => {
            println!("{:?} {:?}", i, res.map(|(_, e)| e));
            assert!(false)
        }
    }
}

#[test]
fn test_parse_while() {
    assert_while("while a do a + b", "a");
}

fn assert_for(i: &str, id: &str, low_v: i64, high_v: i64, expr: &str) {
    let cs = source_chars(i);
    match parse_for(LSpan::new(&cs)) {
        Ok((_, TExpr::For(TFor { var, low, high, body, escape: _, pos: _ }))) => {
            assert_eq!(var, id);
            assert_eq!(get_int(low.as_ref()), low_v);
            assert_eq!(get_int(high.as_ref()), high_v);
            assert_eq!(get_simple_var_name(body.as_ref()), expr);
        }
        res => {
            println!("{:?} {:?}", i, res.map(|(_, e)| e));
            assert!(false)
        }
    }
}

#[test]
fn test_parse_for() {
    assert_for(" for foo := 1 to 8 do a", "foo", 1, 8, "a");
}

#[allow(dead_code)]
fn assert_let(i: &str, id: &str, low_v: i64, high_v: i64, expr: &str) {
    let cs = source_chars(i);
    match parse_let(LSpan::new(&cs)) {
        Ok((_, TExpr::For(TFor { var, low, high, body, escape: _, pos: _ }))) => {
            assert_eq!(var, id);
            assert_eq!(get_int(low.as_ref()), low_v);
            assert_eq!(get_int(high.as_ref()), high_v);
            assert_eq!(get_simple_var_name(body.as_ref()), expr);
        }
        res => {
            println!("{:?} {:?}", i, res.map(|(_, e)| e));
            assert!(false)
        }
    }
}

#[test]
fn test_parse_let() {
    assert_for(" for foo := 1 to 8 do a", "foo", 1, 8, "a");
}

fn assert_fun(i: &str) {
    let cs = source_chars(i);
    match parse_fun(LSpan::new(&cs)) {
        Ok((_l, _)) => assert!(true),
        Err(_) => assert!(false),
    }
}

#[test]
fn test_parse_fun() {
    assert_fun("function treeLeaves(t : tree) = 1");
}

fn assert_comment(i: &str, o: &str) {
    let cs = source_chars(i);
    match parse_comment(LSpan::new(&cs)) {
        Ok((_l, TSourceBlock::Comment(res))) => {
            assert_eq!(res, o)
        }
        _ => {
            assert!(false)
        }
    }
}

#[test]
fn test_comment() {
    assert_comment("/*this*/", "this");
    assert_comment("/*this*/", "this");
    assert_comment("/*this is comment*/", "this is comment");
    assert_comment("/*this is \r escape comment*/", "this is \r escape comment");
}

fn parse_type_with<F>(parser: F, i: &str) -> Option<(String, TType)>
where
    F: for<'a> Fn(LSpan<'a>) -> tiger::parser::common::IResult<'a, TType>,
{
    let cs = source_chars(i);
    match parser(LSpan::new(&cs)) {
        Ok((rest, t)) => Some((rest.fragment(), t)),
        Err(_) => None,
    }
}

#[test]
fn test_parse_name_type() {
    assert_eq!(
        parse_type_with(parse_name_type, "int"),
        Some(("".to_string(), TType::NameType("int".to_string())))
    );
    assert_eq!(
        parse_type_with(parse_name_type, "string"),
        Some(("".to_string(), TType::NameType("string".to_string())))
    );
}

fn assert_record_type(i: &str, vec: &[(&str, &str)]) {
    assert_eq!(
        parse_type_with(parse_record_type, i),
        Some((
            "".to_string(),
            TType::RecordType(
                vec.into_iter()
                    .map(|(s1, s2)| TField {
                        name: s1.to_string(),
                        ty: s2.to_string(),
                        pos: Span::default(),
                    })
                    .collect()
            )
        ))
    )
}

#[test]
fn test_parse_record_type() {
    assert_record_type("{a:int,b:string}", &vec![("a", "int"), ("b", "string")]);
    assert_record_type("{a : int, b : string}", &vec![("a", "int"), ("b", "string")]);
}

#[test]
fn test_parse_array_type() {
    assert_eq!(
        parse_type_with(parse_array_type, "array of int"),
        Some(("".to_string(), TType::ArrayType("int".to_string())))
    );
    assert_eq!(
        parse_type_with(parse_array_type, "arrayof int"),
        Some(("".to_string(), TType::ArrayType("int".to_string())))
    );
}

fn assert_var(i: &str, nm: &str, _ty: &str) {
    let cs = source_chars(i);
    match parse_var(LSpan::new(&cs)) {
        Ok((_l, TDec::VarDec(TVarDec { name, ty, init: _, escape: _, pos: _ }))) => {
            assert_eq!(name, nm.to_string());
            assert_eq!(ty, ty.to_string());
            assert!(true)
        }
        _ => {
            assert!(false)
        }
    }
}

#[test]
fn test_parse_var() {
    assert_var("var a := 1", "a", "auto");
    assert_var("var a:int := 1", "a", "int");
}
