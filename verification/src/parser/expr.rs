use vstd::prelude::*;
use crate::ir::expr::{get_position, 
    BinaryOpCode, LSpan, SDec, SExpr, SVar, Span, TDec, TExpr, TFor, TSourceBlock, TVar, UnaryOpCode, SBlock,
    expr_view, exprs_view, items_view, var_view, lemma_exprs_view_index, lemma_exprs_view_push,
    lemma_items_view_push, span_at, decs_view,
};
use crate::parser::common::{
    IResult, ParseErr, PRes, after, chars_match, conforms, lemma_skip_ws_idempotent, ws_len, cons, identifier, is_digit,
    lemma_prefixed_cons, lemma_prefixed_done, lemma_prefixed_empty, pfail, prefixed, rem, skip_ws,
    space0, preceded_space0, delimited_space0, spec_identifier, spec_tag, tag1, tag2, tag3, tag4, tag5,
};
use crate::parser::decs::{parse_decs, spec_decs};
use crate::parser::ty::parse_type_id;

verus! {

broadcast use LSpan::lemma_pos_bound;

// ---------------------------------------------------------------------------
// Literals
// ---------------------------------------------------------------------------

/// The length of the run of decimal digits at `p`.
pub open spec fn digit_run(s: Seq<char>, p: nat) -> nat
    decreases s.len() - p,
{
    if p < s.len() && is_digit(s[p as int]) {
        1 + digit_run(s, p + 1)
    } else {
        0
    }
}

/// The number that the decimal digits `ds` spell.
pub open spec fn digits_value(ds: Seq<char>) -> nat
    decreases ds.len(),
{
    if ds.len() == 0 {
        0
    } else {
        digits_value(ds.drop_last()) * 10 + ((ds.last() as u32) - ('0' as u32)) as nat
    }
}

/// The characters a string literal may hold: space and the lower-case letters.
pub open spec fn is_string_char(c: char) -> bool {
    c == ' ' || ('a' <= c && c <= 'z')
}

/// The length of the run of string-literal characters at `p`.
pub open spec fn string_run(s: Seq<char>, p: nat) -> nat
    decreases s.len() - p,
{
    if p < s.len() && is_string_char(s[p as int]) {
        1 + string_run(s, p + 1)
    } else {
        0
    }
}

/// The digits of a decimal numeral: `cs` without a leading `+`.
pub open spec fn decimal_digits(cs: Seq<char>) -> Seq<char> {
    if cs.len() > 0 && cs[0] == '+' {
        cs.drop_first()
    } else {
        cs
    }
}

/// Whether `cs` is an optional `+` followed by one or more decimal digits.
pub open spec fn is_decimal(cs: Seq<char>) -> bool {
    let ds = decimal_digits(cs);
    ds.len() > 0 && forall|k: int| 0 <= k < ds.len() ==> is_digit(#[trigger] ds[k])
}

#[verifier::external_type_specification]
#[verifier::external_body]
pub struct ExParseIntError(std::num::ParseIntError);

/// `u8::from_str_radix(s, 10)`. Its documentation: the text is an optional
/// `+` followed by decimal digits only, anything else is an error, and so is
/// a value that does not fit in `u8`. The contract states that, and nothing
/// of which error it is.
#[verifier::external_body]
fn u8_from_decimal(s: &str) -> (r: Result<u8, std::num::ParseIntError>)
    ensures
        match r {
            Ok(v) => is_decimal(s@) && v == digits_value(decimal_digits(s@)),
            Err(_) => !is_decimal(s@) || digits_value(decimal_digits(s@)) > u8::MAX,
        },
{
    u8::from_str_radix(s, 10)
}

/// Reads a decimal numeral of one byte.
pub fn from_hex(input: &str) -> (r: Result<u8, std::num::ParseIntError>)
    ensures
        match r {
            Ok(v) => is_decimal(input@) && v == digits_value(decimal_digits(input@)),
            Err(_) => !is_decimal(input@) || digits_value(decimal_digits(input@)) > u8::MAX,
        },
{
    u8_from_decimal(input)
}

/// Whether the byte is an ASCII letter or an ASCII digit.
pub open spec fn is_ascii_alphanumeric_byte(b: u8) -> bool {
    (0x41 <= b && b <= 0x5A) || (0x61 <= b && b <= 0x7A) || (0x30 <= b && b <= 0x39)
}

/// `nom::character::is_alphanumeric` tests a byte for an ASCII letter
/// (`A`-`Z`, `a`-`z`) or an ASCII digit (`0`-`9`); this states that test.
pub assume_specification[nom::character::is_alphanumeric](chr: u8) -> (r: bool)
    ensures
        r == is_ascii_alphanumeric_byte(chr),
;

// nil, after white space
pub open spec fn spec_nil(s: Seq<char>, p: nat) -> PRes<SExpr> {
    let q0 = skip_ws(s, p);
    if spec_tag(s, q0, seq!['n', 'i', 'l']) {
        PRes::Parsed((q0 + 3 - p) as nat, SExpr::Nil)
    } else {
        PRes::Error
    }
}

// a run of decimal digits; a value beyond i64 cannot be parsed at all
pub open spec fn spec_number(s: Seq<char>, p: nat) -> PRes<SExpr> {
    let n = digit_run(s, p);
    if n == 0 {
        PRes::Error
    } else if digits_value(s.subrange(p as int, (p + n) as int)) > i64::MAX {
        PRes::Abort
    } else {
        PRes::Parsed(n, SExpr::Int(digits_value(s.subrange(p as int, (p + n) as int)) as i64))
    }
}

// " { space or lower-case letter } "
pub open spec fn spec_string(s: Seq<char>, p: nat) -> PRes<SExpr> {
    if spec_tag(s, p, seq!['"']) {
        let m = string_run(s, p + 1);
        if spec_tag(s, p + 1 + m, seq!['"']) {
            PRes::Parsed(
                m + 2,
                SExpr::String(s.subrange((p + 1) as int, (p + 1 + m) as int), span_at(s, p + m + 2)),
            )
        } else {
            PRes::Error
        }
    } else {
        PRes::Error
    }
}

// nil | number | string
pub open spec fn spec_literal(s: Seq<char>, p: nat) -> PRes<SExpr> {
    let r1 = spec_nil(s, p);
    if !(r1 is Error) {
        r1
    } else {
        let r2 = spec_number(s, p);
        if !(r2 is Error) {
            r2
        } else {
            spec_string(s, p)
        }
    }
}

// lvalue -> id, after white space
pub open spec fn spec_lvalue(s: Seq<char>, p: nat) -> PRes<SExpr> {
    let q0 = skip_ws(s, p);
    match spec_identifier(s, q0) {
        PRes::Parsed(n, name) => PRes::Parsed(
            (q0 + n - p) as nat,
            SExpr::Var(SVar::SimpleVar(name, span_at(s, q0 + n))),
        ),
        r => pfail(r),
    }
}

// break
pub open spec fn spec_break(s: Seq<char>, p: nat) -> PRes<SExpr> {
    if spec_tag(s, p, seq!['b', 'r', 'e', 'a', 'k']) {
        PRes::Parsed(5, SExpr::Nil)
    } else {
        PRes::Error
    }
}

// ( ), with white space before each bracket: an expression with no value
pub open spec fn spec_no_value(s: Seq<char>, p: nat) -> PRes<SExpr> {
    let q0 = skip_ws(s, p);
    let q1 = skip_ws(s, q0 + 1);
    if spec_tag(s, q0, seq!['(']) && spec_tag(s, q1, seq![')']) {
        PRes::Parsed((q1 + 1 - p) as nat, SExpr::Nil)
    } else {
        PRes::Error
    }
}

// ---------------------------------------------------------------------------
// Expressions
// ---------------------------------------------------------------------------

// exp, with white space around it
pub open spec fn spec_expr(s: Seq<char>, p: nat) -> PRes<SExpr>
    decreases rem(s, p), 10nat,
{
    let q = skip_ws(s, p);
    match spec_expr_alt(s, q) {
        PRes::Parsed(n, e) => PRes::Parsed((skip_ws(s, q + n) - p) as nat, e),
        r => r,
    }
}

// the first of the expression forms that applies
pub open spec fn spec_expr_alt(s: Seq<char>, p: nat) -> PRes<SExpr>
    decreases rem(s, p), 9nat,
{
    let r = spec_let(s, p);
    if !(r is Error) {
        r
    } else {
        let r = spec_if(s, p);
        if !(r is Error) {
            r
        } else {
            let r = spec_while(s, p);
            if !(r is Error) {
                r
            } else {
                let r = spec_for(s, p);
                if !(r is Error) {
                    r
                } else {
                    let r = spec_break(s, p);
                    if !(r is Error) {
                        r
                    } else {
                        let r = spec_create_record_var(s, p);
                        if !(r is Error) {
                            r
                        } else {
                            let r = spec_create_array(s, p);
                            if !(r is Error) {
                                r
                            } else {
                                let r = spec_literal(s, p);
                                if !(r is Error) {
                                    r
                                } else {
                                    let r = spec_call(s, p);
                                    if !(r is Error) {
                                        r
                                    } else {
                                        spec_lvalue(s, p)
                                    }
                                }
                            }
                        }
                    }
                }
            }
        }
    }
}

// let decs in exp { ; exp } end
pub open spec fn spec_let(s: Seq<char>, p: nat) -> PRes<SExpr>
    decreases rem(s, p), 8nat,
{
    let q0 = skip_ws(s, p);
    if spec_tag(s, q0, seq!['l', 'e', 't']) {
        match spec_decs(s, q0 + 3) {
            PRes::Parsed(n1, decs) => spec_let_body(s, p, q0 + 3 + n1, decs),
            r => pfail(r),
        }
    } else {
        PRes::Error
    }
}

// in exp { ; exp } end: the rest of a let that began at `p`, after its
// declarations ended at `q1`
pub open spec fn spec_let_body(s: Seq<char>, p: nat, q1: nat, decs: Seq<SDec>) -> PRes<SExpr>
    decreases rem(s, q1), 7nat,
{
    let q2 = skip_ws(s, q1);
    if spec_tag(s, q2, seq!['i', 'n']) {
        match spec_expr_sequence(s, q2 + 2) {
            PRes::Parsed(n3, body) => {
                let q4 = skip_ws(s, q2 + 2 + n3);
                if spec_tag(s, q4, seq!['e', 'n', 'd']) {
                    PRes::Parsed(
                        (q4 + 3 - p) as nat,
                        SExpr::Let { decs, body: Box::new(body), pos: span_at(s, q4 + 3) },
                    )
                } else {
                    PRes::Error
                }
            },
            r => pfail(r),
        }
    } else {
        PRes::Error
    }
}

/// Each expression of `es`, paired with `pos`.
#[verifier::opaque]
pub open spec fn paired_with(es: Seq<SExpr>, pos: Span) -> Seq<(SExpr, Span)> {
    Seq::new(es.len(), |k: int| (es[k], pos))
}

// exp { ; exp }
pub open spec fn spec_expr_list1(s: Seq<char>, p: nat) -> PRes<Seq<SExpr>>
    decreases rem(s, p), 12nat,
{
    match spec_expr(s, p) {
        PRes::Parsed(n, e) => cons(e, n, spec_expr_sequence_rest(s, p + n)),
        r => pfail(r),
    }
}

// exp { ; exp }: the list, each element paired with the position after it
pub open spec fn spec_expr_sequence(s: Seq<char>, p: nat) -> PRes<SExpr>
    decreases rem(s, p), 13nat,
{
    match spec_expr_list1(s, p) {
        PRes::Parsed(k, es) => PRes::Parsed(
            k,
            SExpr::Sequence(paired_with(es, span_at(s, p + k))),
        ),
        r => pfail(r),
    }
}

// { ; exp }
pub open spec fn spec_expr_sequence_rest(s: Seq<char>, p: nat) -> PRes<Seq<SExpr>>
    decreases rem(s, p), 11nat,
{
    if spec_tag(s, p, seq![';']) {
        match spec_expr(s, p + 1) {
            PRes::Parsed(n, e) => cons(e, 1 + n, spec_expr_sequence_rest(s, p + 1 + n)),
            PRes::Error => PRes::Parsed(0, Seq::empty()),
            r => pfail(r),
        }
    } else {
        PRes::Parsed(0, Seq::empty())
    }
}

// if exp then exp [else exp]
pub open spec fn spec_if(s: Seq<char>, p: nat) -> PRes<SExpr>
    decreases rem(s, p), 8nat,
{
    let q0 = skip_ws(s, p);
    if spec_tag(s, q0, seq!['i', 'f']) {
        match spec_expr(s, q0 + 2) {
            PRes::Parsed(n1, c) => {
                let q1 = q0 + 2 + n1;
                if spec_tag(s, q1, seq!['t', 'h', 'e', 'n']) {
                    match spec_expr(s, q1 + 4) {
                        PRes::Parsed(n2, t) => spec_if_else(s, p, q1 + 4 + n2, c, t),
                        r => pfail(r),
                    }
                } else {
                    PRes::Error
                }
            },
            r => pfail(r),
        }
    } else {
        PRes::Error
    }
}

// the optional else branch of an if that began at `p` and whose then branch
// ended at `q2`
pub open spec fn spec_if_else(s: Seq<char>, p: nat, q2: nat, c: SExpr, t: SExpr) -> PRes<SExpr>
    decreases rem(s, q2), 7nat,
{
    let no_else = PRes::Parsed(
        (q2 - p) as nat,
        SExpr::If {
            cond: Box::new(c),
            if_expr: Box::new(t),
            else_expr: Box::new(SExpr::Nil),
            pos: span_at(s, q2),
        },
    );
    if spec_tag(s, q2, seq!['e', 'l', 's', 'e']) {
        match spec_expr(s, q2 + 4) {
            PRes::Parsed(n3, e) => PRes::Parsed(
                (q2 + 4 + n3 - p) as nat,
                SExpr::If {
                    cond: Box::new(c),
                    if_expr: Box::new(t),
                    else_expr: Box::new(e),
                    pos: span_at(s, q2 + 4 + n3),
                },
            ),
            PRes::Error => no_else,
            r => pfail(r),
        }
    } else {
        no_else
    }
}

// while exp do exp
pub open spec fn spec_while(s: Seq<char>, p: nat) -> PRes<SExpr>
    decreases rem(s, p), 8nat,
{
    let q0 = skip_ws(s, p);
    if spec_tag(s, q0, seq!['w', 'h', 'i', 'l', 'e']) {
        match spec_expr(s, q0 + 5) {
            PRes::Parsed(n1, c) => {
                let q1 = q0 + 5 + n1;
                if spec_tag(s, q1, seq!['d', 'o']) {
                    match spec_expr(s, q1 + 2) {
                        PRes::Parsed(n2, b) => PRes::Parsed(
                            (q1 + 2 + n2 - p) as nat,
                            SExpr::While {
                                cond: Box::new(c),
                                body: Box::new(b),
                                pos: span_at(s, q1 + 2 + n2),
                            },
                        ),
                        r => pfail(r),
                    }
                } else {
                    PRes::Error
                }
            },
            r => pfail(r),
        }
    } else {
        PRes::Error
    }
}

// for id := exp to exp do exp
pub open spec fn spec_for(s: Seq<char>, p: nat) -> PRes<SExpr>
    decreases rem(s, p), 8nat,
{
    let q0 = skip_ws(s, p);
    if spec_tag(s, q0, seq!['f', 'o', 'r']) {
        let q1 = skip_ws(s, q0 + 3);
        match spec_identifier(s, q1) {
            PRes::Parsed(n1, var) => {
                let q2 = skip_ws(s, q1 + n1);
                if spec_tag(s, q2, seq![':', '=']) {
                    match spec_expr(s, q2 + 2) {
                        PRes::Parsed(n3, low) => {
                            let q3 = q2 + 2 + n3;
                            if spec_tag(s, q3, seq!['t', 'o']) {
                                match spec_expr(s, q3 + 2) {
                                    PRes::Parsed(n4, high) => {
                                        let q4 = q3 + 2 + n4;
                                        if spec_tag(s, q4, seq!['d', 'o']) {
                                            match spec_expr(s, q4 + 2) {
                                                PRes::Parsed(n5, body) => PRes::Parsed(
                                                    (q4 + 2 + n5 - p) as nat,
                                                    SExpr::For {
                                                        var,
                                                        low: Box::new(low),
                                                        high: Box::new(high),
                                                        body: Box::new(body),
                                                        escape: false,
                                                        pos: span_at(s, q4 + 2 + n5),
                                                    },
                                                ),
                                                r => pfail(r),
                                            }
                                        } else {
                                            PRes::Error
                                        }
                                    },
                                    r => pfail(r),
                                }
                            } else {
                                PRes::Error
                            }
                        },
                        r => pfail(r),
                    }
                } else {
                    PRes::Error
                }
            },
            r => pfail(r),
        }
    } else {
        PRes::Error
    }
}

// type-id { [field { , field }] }: a record creation, which gives the
// variable named by the type id at the position after the braces
pub open spec fn spec_create_record_var(s: Seq<char>, p: nat) -> PRes<SExpr>
    decreases rem(s, p), 8nat,
{
    match spec_identifier(s, p) {
        PRes::Parsed(n1, rid) => {
            let q1 = skip_ws(s, p + n1);
            if spec_tag(s, q1, seq!['{']) {
                match spec_record_fields(s, q1 + 1) {
                    PRes::Parsed(n2, _) => {
                        let q2 = q1 + 1 + n2;
                        if spec_tag(s, q2, seq!['}']) {
                            let q3 = skip_ws(s, q2 + 1);
                            PRes::Parsed(
                                (q3 - p) as nat,
                                SExpr::Var(SVar::SimpleVar(rid, span_at(s, q3))),
                            )
                        } else {
                            PRes::Error
                        }
                    },
                    r => pfail(r),
                }
            } else {
                PRes::Error
            }
        },
        r => pfail(r),
    }
}

// [field { , field }]
pub open spec fn spec_record_fields(s: Seq<char>, p: nat) -> PRes<()>
    decreases rem(s, p), 7nat,
{
    match spec_record_field(s, p) {
        PRes::Parsed(n, _) => after(n, spec_record_fields_rest(s, p + n)),
        PRes::Error => PRes::Parsed(0, ()),
        r => pfail(r),
    }
}

// { , field }
pub open spec fn spec_record_fields_rest(s: Seq<char>, p: nat) -> PRes<()>
    decreases rem(s, p), 5nat,
{
    if spec_tag(s, p, seq![',']) {
        match spec_record_field(s, p + 1) {
            PRes::Parsed(n, _) => after(1 + n, spec_record_fields_rest(s, p + 1 + n)),
            PRes::Error => PRes::Parsed(0, ()),
            r => pfail(r),
        }
    } else {
        PRes::Parsed(0, ())
    }
}

// field -> id = exp, with white space around each part
pub open spec fn spec_record_field(s: Seq<char>, p: nat) -> PRes<()>
    decreases rem(s, p), 6nat,
{
    let q0 = skip_ws(s, p);
    match spec_identifier(s, q0) {
        PRes::Parsed(n1, _) => {
            let q1 = skip_ws(s, q0 + n1);
            if spec_tag(s, q1, seq!['=']) {
                let q2 = skip_ws(s, q1 + 1);
                match spec_expr(s, q2) {
                    PRes::Parsed(n2, _) => PRes::Parsed((q2 + n2 - p) as nat, ()),
                    r => pfail(r),
                }
            } else {
                PRes::Error
            }
        },
        r => pfail(r),
    }
}

// [ [ exp ] ]: the optional bracketed size of an array creation
pub open spec fn spec_array_size(s: Seq<char>, e1: nat) -> PRes<Option<SExpr>>
    decreases rem(s, e1), 7nat,
{
    let q1 = skip_ws(s, e1);
    if spec_tag(s, q1, seq!['[']) {
        match spec_expr(s, q1 + 1) {
            PRes::Parsed(n2, sz) => {
                let q2 = q1 + 1 + n2;
                if spec_tag(s, q2, seq![']']) {
                    PRes::Parsed((skip_ws(s, q2 + 1) - e1) as nat, Some(sz))
                } else {
                    PRes::Parsed(0, None)
                }
            },
            PRes::Error => PRes::Parsed(0, None),
            r => pfail(r),
        }
    } else {
        PRes::Parsed(0, None)
    }
}

// type-id [ [exp] ] of exp, or type-id exp of exp; no size means size 0
pub open spec fn spec_create_array(s: Seq<char>, p: nat) -> PRes<SExpr>
    decreases rem(s, p), 8nat,
{
    let q0 = skip_ws(s, p);
    match spec_identifier(s, q0) {
        PRes::Parsed(n1, ty) => {
            let e1 = q0 + n1;
            match spec_array_size(s, e1) {
                PRes::Parsed(k, size) => spec_array_of(s, p, e1 + k, ty, size),
                r => pfail(r),
            }
        },
        r => pfail(r),
    }
}

// of exp: the rest of an array creation that began at `p`, after its type
// and optional bracketed size ended at `c`; with no bracketed size, a size
// expression may come before `of`
pub open spec fn spec_array_of(
    s: Seq<char>,
    p: nat,
    c: nat,
    ty: Seq<char>,
    size: Option<SExpr>,
) -> PRes<SExpr>
    decreases rem(s, c) + 1, 6nat,
{
    let q3 = skip_ws(s, c);
    if spec_tag(s, q3, seq!['o', 'f']) {
        match spec_expr(s, q3 + 2) {
            PRes::Parsed(n4, init) => PRes::Parsed(
                (q3 + 2 + n4 - p) as nat,
                SExpr::Array {
                    item_type: ty,
                    size: Box::new(
                        match size {
                            Some(sz) => sz,
                            None => SExpr::Int(0),
                        },
                    ),
                    init: Box::new(init),
                    pos: span_at(s, q3 + 2 + n4),
                },
            ),
            r => pfail(r),
        }
    } else if size is None {
        match spec_size_literal(s, q3) {
            PRes::Parsed(n5, sz) => spec_array_bare_of(s, p, skip_ws(s, q3 + n5), ty, sz),
            _ => PRes::Error,
        }
    } else {
        PRes::Error
    }
}

// a size given without brackets: a decimal literal that fits in `i64`;
// anything else is no size
pub open spec fn spec_size_literal(s: Seq<char>, p: nat) -> PRes<SExpr> {
    match spec_number(s, p) {
        PRes::Parsed(n, e) => PRes::Parsed(n, e),
        _ => PRes::Error,
    }
}

// of exp, after a size given without brackets and the white space after it,
// which end at `q5`; an initial value that fails for want of input counts as
// no match
pub open spec fn spec_array_bare_of(
    s: Seq<char>,
    p: nat,
    q5: nat,
    ty: Seq<char>,
    sz: SExpr,
) -> PRes<SExpr>
    decreases rem(s, q5) + 1, 5nat,
{
    if spec_tag(s, q5, seq!['o', 'f']) {
        match spec_expr(s, q5 + 2) {
            PRes::Parsed(n6, init) => PRes::Parsed(
                (q5 + 2 + n6 - p) as nat,
                SExpr::Array {
                    item_type: ty,
                    size: Box::new(sz),
                    init: Box::new(init),
                    pos: span_at(s, q5 + 2 + n6),
                },
            ),
            PRes::Abort => PRes::Abort,
            _ => PRes::Error,
        }
    } else {
        PRes::Error
    }
}

// id ( [exp { , exp }] )
pub open spec fn spec_call(s: Seq<char>, p: nat) -> PRes<SExpr>
    decreases rem(s, p), 8nat,
{
    let q0 = skip_ws(s, p);
    match spec_identifier(s, q0) {
        PRes::Parsed(n1, name) => {
            let q1 = skip_ws(s, q0 + n1);
            if spec_tag(s, q1, seq!['(']) {
                match spec_call_args(s, q1 + 1) {
                    PRes::Parsed(n2, args) => {
                        let q2 = q1 + 1 + n2;
                        if spec_tag(s, q2, seq![')']) {
                            PRes::Parsed(
                                (q2 + 1 - p) as nat,
                                SExpr::Call { fun: name, args, pos: span_at(s, q2 + 1) },
                            )
                        } else {
                            PRes::Error
                        }
                    },
                    r => pfail(r),
                }
            } else {
                PRes::Error
            }
        },
        r => pfail(r),
    }
}

// [exp { , exp }]
pub open spec fn spec_call_args(s: Seq<char>, p: nat) -> PRes<Seq<SExpr>>
    decreases rem(s, p), 12nat,
{
    match spec_expr(s, p) {
        PRes::Parsed(n, e) => cons(e, n, spec_call_args_rest(s, p + n)),
        PRes::Error => PRes::Parsed(0, Seq::empty()),
        r => pfail(r),
    }
}

// { , exp }
pub open spec fn spec_call_args_rest(s: Seq<char>, p: nat) -> PRes<Seq<SExpr>>
    decreases rem(s, p), 11nat,
{
    if spec_tag(s, p, seq![',']) {
        match spec_expr(s, p + 1) {
            PRes::Parsed(n, e) => cons(e, 1 + n, spec_call_args_rest(s, p + 1 + n)),
            PRes::Error => PRes::Parsed(0, Seq::empty()),
            r => pfail(r),
        }
    } else {
        PRes::Parsed(0, Seq::empty())
    }
}


// ---------------------------------------------------------------------------
// Lemmas
// ---------------------------------------------------------------------------

pub proof fn lemma_digits_value_prefix(ds: Seq<char>, k: nat)
    requires
        k <= ds.len(),
    ensures
        digits_value(ds.take(k as int)) <= digits_value(ds),
    decreases ds.len() - k,
{
    if k < ds.len() {
        lemma_digits_value_prefix(ds, k + 1);
        assert(ds.take((k + 1) as int).drop_last() =~= ds.take(k as int));
    } else {
        assert(ds.take(k as int) =~= ds);
    }
}

pub proof fn lemma_run_bounds(s: Seq<char>, p: nat)
    ensures
        p <= s.len() ==> p + digit_run(s, p) <= s.len(),
        p <= s.len() ==> p + string_run(s, p) <= s.len(),
        forall|k: int| p <= k < p + digit_run(s, p) ==> is_digit(#[trigger] s[k]),
    decreases s.len() - p,
{
    if p < s.len() {
        lemma_run_bounds(s, p + 1);
    }
}

pub proof fn lemma_after_after(k: nat, m: nat, r: PRes<()>)
    ensures
        after(k, after(m, r)) == after(k + m, r),
{
}

// ---------------------------------------------------------------------------
// Executable parsers
// ---------------------------------------------------------------------------

fn digit_count(i: &LSpan) -> (r: usize)
    ensures
        r == digit_run(i.text(), i.pos()),
        i.pos() + r <= i.text().len(),
{
    let ghost s = i.text();
    let ghost p = i.pos();
    let mut k: usize = 0;
    proof {
        lemma_run_bounds(s, p);
    }
    while k < i.remaining()
        invariant
            p + k <= s.len(),
            s == i.text(),
            p == i.pos(),
            digit_run(s, p) == k + digit_run(s, (p + k) as nat),
        decreases s.len() - p - k,
    {
        match i.peek_at(k) {
            Some(c) => {
                if !('0' <= c && c <= '9') {
                    return k;
                }
            },
            None => {
                return k;
            },
        }
        k = k + 1;
    }
    k
}

fn string_count(i: &LSpan) -> (r: usize)
    ensures
        r == string_run(i.text(), i.pos()),
        i.pos() + r <= i.text().len(),
{
    let ghost s = i.text();
    let ghost p = i.pos();
    let mut k: usize = 0;
    proof {
        lemma_run_bounds(s, p);
    }
    while k < i.remaining()
        invariant
            p + k <= s.len(),
            s == i.text(),
            p == i.pos(),
            string_run(s, p) == k + string_run(s, (p + k) as nat),
        decreases s.len() - p - k,
    {
        match i.peek_at(k) {
            Some(c) => {
                if !(c == ' ' || ('a' <= c && c <= 'z')) {
                    return k;
                }
            },
            None => {
                return k;
            },
        }
        k = k + 1;
    }
    k
}

/// Whether the low byte of `c` is an ASCII letter or digit.
pub fn is_character(c: char) -> (r: bool)
    ensures
        r == is_ascii_alphanumeric_byte(c as u8),
{
    nom::character::is_alphanumeric(c as u8)
}

/// `nil`, after white space.
pub fn parse_nil<'a>(i: LSpan<'a>) -> (r: IResult<'a, TExpr>)
    ensures
        conforms(r, i, spec_nil(i.text(), i.pos()), |e: TExpr| e@),
{
    let (i1, _) = preceded_space0(tag_nil, i)?;
    Ok((i1, TExpr::Nil))
}

/// `nil` at the read position.
fn tag_nil<'a>(i: LSpan<'a>) -> (r: IResult<'a, ()>)
    ensures
        conforms(
            r,
            i,
            if spec_tag(i.text(), i.pos(), seq!['n', 'i', 'l']) {
                PRes::Parsed(3, ())
            } else {
                PRes::Error
            },
            |u: ()| u,
        ),
{
    if !tag3(&i, 'n', 'i', 'l') {
        return Err(ParseErr::Error);
    }
    Ok((i.advance(3), ()))
}

/// A decimal integer literal.
pub fn parse_number<'a>(i: LSpan<'a>) -> (r: IResult<'a, TExpr>)
    requires
        !(spec_number(i.text(), i.pos()) is Abort),
    ensures
        conforms(r, i, spec_number(i.text(), i.pos()), |e: TExpr| e@),
{
    let ghost s = i.text();
    let ghost p = i.pos();
    let n = digit_count(&i);
    if n == 0 {
        return Err(ParseErr::Error);
    }
    let ghost ds = s.subrange(p as int, p + n);
    let mut v: i64 = 0;
    let mut k: usize = 0;
    proof {
        lemma_run_bounds(s, p);
        assert(ds.take(0) =~= Seq::<char>::empty());
    }
    while k < n
        invariant
            p + n <= s.len(),
            s == i.text(),
            p == i.pos(),
            ds == s.subrange(p as int, p + n),
            n == digit_run(s, p),
            k <= n,
            digits_value(ds) <= i64::MAX,
            v == digits_value(ds.take(k as int)),
        decreases n - k,
    {
        let c = match i.peek_at(k) {
            Some(c) => c,
            None => {
                return Err(ParseErr::Error);
            },
        };
        proof {
            lemma_run_bounds(s, p);
            lemma_digits_value_prefix(ds, (k + 1) as nat);
            assert(ds.take(k + 1).drop_last() =~= ds.take(k as int));
            assert(ds.take(k + 1).last() == c);
            assert(is_digit(s[p + k]));
        }
        let d = ((c as u32) - ('0' as u32)) as i64;
        v = v * 10 + d;
        k = k + 1;
    }
    proof {
        assert(ds.take(n as int) =~= ds);
    }
    let (rest, _) = get_position(i.advance(n))?;
    Ok((rest, TExpr::Int(v)))
}

/// A string literal of spaces and lower-case letters between double quotes.
pub fn parse_string<'a>(i: LSpan<'a>) -> (r: IResult<'a, TExpr>)
    ensures
        conforms(r, i, spec_string(i.text(), i.pos()), |e: TExpr| e@),
{
    if !tag1(&i, '"') {
        return Err(ParseErr::Error);
    }
    let i1 = i.advance(1);
    let m = string_count(&i1);
    let content = i1.take_string(m);
    let i2 = i1.advance(m);
    if !tag1(&i2, '"') {
        return Err(ParseErr::Error);
    }
    let (i3, pos) = get_position(i2.advance(1))?;
    Ok((i3, TExpr::String(content, pos)))
}

/// `nil`, a number or a string.
pub fn parse_literal_expr<'a>(i: LSpan<'a>) -> (r: IResult<'a, TExpr>)
    requires
        !(spec_literal(i.text(), i.pos()) is Abort),
    ensures
        conforms(r, i, spec_literal(i.text(), i.pos()), |e: TExpr| e@),
{
    match parse_nil(i) {
        Err(ParseErr::Error) => {},
        r => return r,
    }
    match parse_number(i) {
        Err(ParseErr::Error) => {},
        r => return r,
    }
    parse_string(i)
}

/// A variable name, after white space, with the position after it.
pub fn parse_identifier<'a>(i: LSpan<'a>) -> (r: IResult<'a, TExpr>)
    ensures
        conforms(r, i, spec_lvalue(i.text(), i.pos()), |e: TExpr| e@),
{
    let (i1, id) = preceded_space0(identifier, i)?;
    let (i1, pos) = get_position(i1)?;
    let ghost name = id@;
    let v = TVar::SimpleVar(id, pos);
    assert(var_view(v) == SVar::SimpleVar(name, pos));
    let e = TExpr::Var(v);
    assert(expr_view(e) == SExpr::Var(var_view(v)));
    Ok((i1, e))
}

/// An lvalue: a variable name.
pub fn parse_lvalue<'a>(i: LSpan<'a>) -> (r: IResult<'a, TExpr>)
    ensures
        conforms(r, i, spec_lvalue(i.text(), i.pos()), |e: TExpr| e@),
{
    parse_identifier(i)
}

/// `break`.
pub fn parse_break<'a>(i: LSpan<'a>) -> (r: IResult<'a, TExpr>)
    ensures
        conforms(r, i, spec_break(i.text(), i.pos()), |e: TExpr| e@),
{
    if !tag5(&i, 'b', 'r', 'e', 'a', 'k') {
        return Err(ParseErr::Error);
    }
    Ok((i.advance(5), TExpr::Nil))
}

/// `(` and `)`, each after white space: an expression with no value.
pub fn parse_no_value<'a>(i: LSpan<'a>) -> (r: IResult<'a, TExpr>)
    ensures
        conforms(r, i, spec_no_value(i.text(), i.pos()), |e: TExpr| e@),
{
    let q0 = space0(i);
    if !tag1(&q0, '(') {
        return Err(ParseErr::Error);
    }
    let q1 = space0(q0.advance(1));
    if !tag1(&q1, ')') {
        return Err(ParseErr::Error);
    }
    Ok((q1.advance(1), TExpr::Nil))
}

/// An expression, with the white space around it.
pub fn parse_expr<'a>(i: LSpan<'a>) -> (r: IResult<'a, TExpr>)
    requires
        !(spec_expr(i.text(), i.pos()) is Abort),
    ensures
        conforms(r, i, spec_expr(i.text(), i.pos()), |e: TExpr| e@),
    decreases rem(i.text(), i.pos()), 10nat,
{
    let q = space0(i);
    let (rest, e) = parse_expr_alt(q)?;
    Ok((space0(rest), e))
}

fn parse_expr_alt<'a>(i: LSpan<'a>) -> (r: IResult<'a, TExpr>)
    requires
        !(spec_expr_alt(i.text(), i.pos()) is Abort),
    ensures
        conforms(r, i, spec_expr_alt(i.text(), i.pos()), |e: TExpr| e@),
    decreases rem(i.text(), i.pos()), 9nat,
{
    match parse_let(i) {
        Err(ParseErr::Error) => {},
        r => return r,
    }
    match parse_if(i) {
        Err(ParseErr::Error) => {},
        r => return r,
    }
    match parse_while(i) {
        Err(ParseErr::Error) => {},
        r => return r,
    }
    match parse_for(i) {
        Err(ParseErr::Error) => {},
        r => return r,
    }
    match parse_break(i) {
        Err(ParseErr::Error) => {},
        r => return r,
    }
    match parse_create_record_var(i) {
        Err(ParseErr::Error) => {},
        r => return r,
    }
    match parse_create_array(i) {
        Err(ParseErr::Error) => {},
        r => return r,
    }
    match parse_literal_expr(i) {
        Err(ParseErr::Error) => {},
        r => return r,
    }
    match parse_call(i) {
        Err(ParseErr::Error) => {},
        r => return r,
    }
    parse_lvalue(i)
}

/// `let decs in exp { ; exp } end`.
#[verifier::rlimit(100)]
pub fn parse_let<'a>(i: LSpan<'a>) -> (r: IResult<'a, TExpr>)
    requires
        !(spec_let(i.text(), i.pos()) is Abort),
    ensures
        conforms(r, i, spec_let(i.text(), i.pos()), |e: TExpr| e@),
    decreases rem(i.text(), i.pos()), 8nat,
{
    let i0 = space0(i);
    if !tag3(&i0, 'l', 'e', 't') {
        return Err(ParseErr::Error);
    }
    let (i1, decs) = parse_decs(i0.advance(3))?;
    parse_let_body(i, i1, decs)
}

#[verifier::rlimit(100)]
#[verifier::spinoff_prover]
fn parse_let_body<'a>(i: LSpan<'a>, i1: LSpan<'a>, decs: Vec<TDec>) -> (r: IResult<'a, TExpr>)
    requires
        i1.text() == i.text(),
        i.pos() < i1.pos(),
        !(spec_let_body(i.text(), i.pos(), i1.pos(), decs_view(decs@)) is Abort),
    ensures
        conforms(r, i, spec_let_body(i.text(), i.pos(), i1.pos(), decs_view(decs@)), |e: TExpr| e@),
    decreases rem(i1.text(), i1.pos()), 7nat,
{
    let ghost s = i.text();
    let ghost p = i.pos();
    let ghost dv = decs_view(decs@);
    let i2 = space0(i1);
    if !tag2(&i2, 'i', 'n') {
        return Err(ParseErr::Error);
    }
    let ghost tail = spec_expr_sequence(s, i2.pos() + 2);
    assert(spec_let_body(s, p, i1.pos(), dv) == match tail {
        PRes::Parsed(n3, body) => {
            let q4 = skip_ws(s, i2.pos() + 2 + n3);
            if spec_tag(s, q4, seq!['e', 'n', 'd']) {
                PRes::Parsed(
                    (q4 + 3 - p) as nat,
                    SExpr::Let { decs: dv, body: Box::new(body), pos: span_at(s, q4 + 3) },
                )
            } else {
                PRes::Error
            }
        },
        r => pfail(r),
    });
    let (i3, body) = match parse_expr_sequence(i2.advance(2)) {
        Ok(x) => x,
        Err(e) => {
            return Err(e);
        },
    };
    let i4 = space0(i3);
    if !tag3(&i4, 'e', 'n', 'd') {
        return Err(ParseErr::Error);
    }
    let (i5, pos) = get_position(i4.advance(3))?;
    Ok((i5, make_let(decs, body, pos)))
}

fn make_let(decs: Vec<TDec>, body: TExpr, pos: Span) -> (e: TExpr)
    ensures
        e@ == (SExpr::Let { decs: decs_view(decs@), body: Box::new(body@), pos }),
{
    TExpr::Let { decs, body: Box::new(body), pos }
}

#[verifier::rlimit(100)]
#[verifier::spinoff_prover]
fn parse_expr_list1<'a>(i: LSpan<'a>) -> (r: IResult<'a, Vec<Box<TExpr>>>)
    requires
        !(spec_expr_list1(i.text(), i.pos()) is Abort),
    ensures
        conforms(
            r,
            i,
            spec_expr_list1(i.text(), i.pos()),
            |v: Vec<Box<TExpr>>| exprs_view(v@),
        ),
    decreases rem(i.text(), i.pos()), 12nat,
{
    let ghost s = i.text();
    let ghost p0 = i.pos();
    let (mut cur, first) = parse_expr(i)?;
    let mut v: Vec<Box<TExpr>> = Vec::new();
    v.push(Box::new(first));
    proof {
        lemma_exprs_view_push(Seq::empty(), v@[0]);
        assert(Seq::<Box<TExpr>>::empty().push(v@[0]) =~= v@);
        assert(exprs_view(Seq::<Box<TExpr>>::empty()) =~= Seq::<SExpr>::empty());
        lemma_prefixed_empty(spec_expr_list1(s, p0));
        lemma_prefixed_cons(Seq::<SExpr>::empty(), 0, first@, (cur.pos() - p0) as nat,
            spec_expr_sequence_rest(s, cur.pos()));
        assert(Seq::<SExpr>::empty().push(first@) =~= exprs_view(v@));
    }
    loop
        invariant
            i.text() == s,
            i.pos() == p0,
            cur.text() == s,
            p0 < cur.pos(),
            spec_expr_list1(s, p0) == prefixed(
                exprs_view(v@),
                (cur.pos() - p0) as nat,
                spec_expr_sequence_rest(s, cur.pos()),
            ),
            !(spec_expr_list1(s, p0) is Abort),
        decreases rem(s, cur.pos()),
    {
        let ghost tail = spec_expr_sequence_rest(s, cur.pos());
        if !tag1(&cur, ';') {
            proof {
                assert(tail == PRes::Parsed(0, Seq::<SExpr>::empty()));
                lemma_prefixed_done(exprs_view(v@), (cur.pos() - p0) as nat);
            }
            return Ok((cur, v));
        }
        proof {
            if spec_expr(s, cur.pos() + 1) is Abort {
                assert(tail is Abort);
            }
        }
        match parse_expr(cur.advance(1)) {
            Ok((rest, e)) => {
                let ghost old_v = v@;
                let ghost n = (rest.pos() - cur.pos() - 1) as nat;
                let be = Box::new(e);
                v.push(be);
                proof {
                    assert(tail == cons(e@, 1 + n, spec_expr_sequence_rest(s, rest.pos())));
                    lemma_prefixed_cons(exprs_view(old_v), (cur.pos() - p0) as nat, e@, 1 + n,
                        spec_expr_sequence_rest(s, rest.pos()));
                    lemma_exprs_view_push(old_v, be);
                    assert(old_v.push(be) =~= v@);
                }
                cur = rest;
            },
            Err(ParseErr::Error) => {
                proof {
                    assert(tail == PRes::Parsed(0, Seq::<SExpr>::empty()));
                    lemma_prefixed_done(exprs_view(v@), (cur.pos() - p0) as nat);
                }
                return Ok((cur, v));
            },
            Err(e) => {
                return Err(e);
            },
        }
    }
}

/// `exp { ; exp }`, each expression paired with the position after the list.
#[verifier::rlimit(50)]
#[verifier::spinoff_prover]
fn parse_expr_sequence<'a>(i: LSpan<'a>) -> (r: IResult<'a, TExpr>)
    requires
        !(spec_expr_sequence(i.text(), i.pos()) is Abort),
    ensures
        conforms(r, i, spec_expr_sequence(i.text(), i.pos()), |e: TExpr| e@),
    decreases rem(i.text(), i.pos()), 13nat,
{
    let (rest, exprs) = parse_expr_list1(i)?;
    let (rest, pos) = get_position(rest)?;
    let ghost all = exprs@;
    let ghost views = exprs_view(all);
    let mut exprs = exprs;
    let mut items: Vec<(Box<TExpr>, Span)> = Vec::new();
    let mut k: usize = 0;
    let total = exprs.len();
    proof {
        reveal(paired_with);
        lemma_exprs_view_index(all);
        assert(all.subrange(0, all.len() as int) =~= all);
        assert(items_view(items@) =~= paired_with(views.take(0), pos));
    }
    while exprs.len() > 0
        invariant
            views == exprs_view(all),
            views.len() == all.len(),
            total == all.len(),
            forall|j: int| 0 <= j < all.len() ==> #[trigger] views[j] == expr_view(*all[j]),
            k <= all.len(),
            exprs@ == all.subrange(k as int, all.len() as int),
            items_view(items@) == paired_with(views.take(k as int), pos),
        decreases exprs.len(),
    {
        let e = exprs.remove(0);
        let ghost old_items = items@;
        items.push((e, pos));
        proof {
            reveal(paired_with);
            assert(e == all[k as int]);
            lemma_items_view_push(old_items, (e, pos));
            assert(paired_with(views.take(k as int), pos).push((expr_view(*e), pos))
                =~= paired_with(views.take(k + 1), pos));
            assert(exprs@ =~= all.subrange(k + 1, all.len() as int));
        }
        k = k + 1;
    }
    proof {
        assert(views.take(k as int) =~= views);
    }
    Ok((rest, TExpr::Sequence(items)))
}

/// `if exp then exp [else exp]`; without `else`, the else branch is `nil`.
#[verifier::rlimit(100)]
pub fn parse_if<'a>(i: LSpan<'a>) -> (r: IResult<'a, TExpr>)
    requires
        !(spec_if(i.text(), i.pos()) is Abort),
    ensures
        conforms(r, i, spec_if(i.text(), i.pos()), |e: TExpr| e@),
    decreases rem(i.text(), i.pos()), 8nat,
{
    let i0 = space0(i);
    if !tag2(&i0, 'i', 'f') {
        return Err(ParseErr::Error);
    }
    let (i1, cond) = parse_expr(i0.advance(2))?;
    if !tag4(&i1, 't', 'h', 'e', 'n') {
        return Err(ParseErr::Error);
    }
    let (i2, if_expr) = parse_expr(i1.advance(4))?;
    parse_if_else(i, i2, cond, if_expr)
}

fn parse_if_else<'a>(i: LSpan<'a>, i2: LSpan<'a>, cond: TExpr, if_expr: TExpr) -> (r: IResult<
    'a,
    TExpr,
>)
    requires
        i2.text() == i.text(),
        i.pos() < i2.pos(),
        !(spec_if_else(i.text(), i.pos(), i2.pos(), cond@, if_expr@) is Abort),
    ensures
        conforms(r, i, spec_if_else(i.text(), i.pos(), i2.pos(), cond@, if_expr@), |e: TExpr| e@),
    decreases rem(i2.text(), i2.pos()), 7nat,
{
    let mut end = i2;
    let mut else_expr = TExpr::Nil;
    assert(else_expr@ == SExpr::Nil);
    if tag4(&i2, 'e', 'l', 's', 'e') {
        match parse_expr(i2.advance(4)) {
            Ok((i3, e)) => {
                end = i3;
                else_expr = e;
            },
            Err(ParseErr::Error) => {},
            Err(e) => {
                return Err(e);
            },
        }
    }
    let (end, pos) = get_position(end)?;
    let ghost cv = cond@;
    let ghost tv = if_expr@;
    let ghost ev = else_expr@;
    let e = TExpr::If {
        cond: Box::new(cond),
        if_expr: Box::new(if_expr),
        else_expr: Box::new(else_expr),
        pos,
    };
    assert(e@ == SExpr::If {
        cond: Box::new(cv),
        if_expr: Box::new(tv),
        else_expr: Box::new(ev),
        pos,
    });
    Ok((end, e))
}

/// `while exp do exp`.
#[verifier::rlimit(100)]
pub fn parse_while<'a>(i: LSpan<'a>) -> (r: IResult<'a, TExpr>)
    requires
        !(spec_while(i.text(), i.pos()) is Abort),
    ensures
        conforms(r, i, spec_while(i.text(), i.pos()), |e: TExpr| e@),
    decreases rem(i.text(), i.pos()), 8nat,
{
    let i0 = space0(i);
    if !tag5(&i0, 'w', 'h', 'i', 'l', 'e') {
        return Err(ParseErr::Error);
    }
    let (i1, cond) = parse_expr(i0.advance(5))?;
    if !tag2(&i1, 'd', 'o') {
        return Err(ParseErr::Error);
    }
    let (i2, body) = parse_expr(i1.advance(2))?;
    let (i2, pos) = get_position(i2)?;
    Ok((i2, TExpr::While { cond: Box::new(cond), body: Box::new(body), pos }))
}

/// `for id := exp to exp do exp`.
#[verifier::rlimit(100)]
pub fn parse_for<'a>(i: LSpan<'a>) -> (r: IResult<'a, TExpr>)
    requires
        !(spec_for(i.text(), i.pos()) is Abort),
    ensures
        conforms(r, i, spec_for(i.text(), i.pos()), |e: TExpr| e@),
    decreases rem(i.text(), i.pos()), 8nat,
{
    let i0 = space0(i);
    if !tag3(&i0, 'f', 'o', 'r') {
        return Err(ParseErr::Error);
    }
    let i1 = space0(i0.advance(3));
    let (i2, var) = identifier(i1)?;
    let i2 = space0(i2);
    if !tag2(&i2, ':', '=') {
        return Err(ParseErr::Error);
    }
    let (i3, low) = parse_expr(i2.advance(2))?;
    if !tag2(&i3, 't', 'o') {
        return Err(ParseErr::Error);
    }
    let (i4, high) = parse_expr(i3.advance(2))?;
    if !tag2(&i4, 'd', 'o') {
        return Err(ParseErr::Error);
    }
    let (i5, body) = parse_expr(i4.advance(2))?;
    let (i5, pos) = get_position(i5)?;
    Ok((
        i5,
        TExpr::For(
            TFor {
                var,
                low: Box::new(low),
                high: Box::new(high),
                body: Box::new(body),
                escape: false,
                pos,
            },
        ),
    ))
}

/// `id = exp`, a field of a record creation.
fn parse_record_field<'a>(i: LSpan<'a>) -> (r: IResult<'a, ()>)
    requires
        !(spec_record_field(i.text(), i.pos()) is Abort),
    ensures
        conforms(r, i, spec_record_field(i.text(), i.pos()), |u: ()| u),
    decreases rem(i.text(), i.pos()), 6nat,
{
    let i0 = space0(i);
    let (i1, _) = parse_type_id(i0)?;
    let i1 = space0(i1);
    if !tag1(&i1, '=') {
        return Err(ParseErr::Error);
    }
    let i2 = space0(i1.advance(1));
    let (i3, _) = parse_expr(i2)?;
    Ok((i3, ()))
}

/// The fields of a record creation, separated by commas.
fn parse_record_fields<'a>(i: LSpan<'a>) -> (r: IResult<'a, ()>)
    requires
        !(spec_record_fields(i.text(), i.pos()) is Abort),
    ensures
        conforms(r, i, spec_record_fields(i.text(), i.pos()), |u: ()| u),
    decreases rem(i.text(), i.pos()), 7nat,
{
    let ghost s = i.text();
    let ghost p0 = i.pos();
    let mut cur = match parse_record_field(i) {
        Ok((rest, _)) => rest,
        Err(ParseErr::Error) => {
            return Ok((i, ()));
        },
        Err(e) => {
            return Err(e);
        },
    };
    loop
        invariant
            i.text() == s,
            i.pos() == p0,
            cur.text() == s,
            p0 <= cur.pos(),
            spec_record_fields(s, p0) == after(
                (cur.pos() - p0) as nat,
                spec_record_fields_rest(s, cur.pos()),
            ),
            !(spec_record_fields(s, p0) is Abort),
        decreases rem(s, cur.pos()),
    {
        let ghost tail = spec_record_fields_rest(s, cur.pos());
        if !tag1(&cur, ',') {
            assert(tail == PRes::Parsed(0, ()));
            return Ok((cur, ()));
        }
        proof {
            if spec_record_field(s, cur.pos() + 1) is Abort {
                assert(tail is Abort);
            }
        }
        match parse_record_field(cur.advance(1)) {
            Ok((rest, _)) => {
                proof {
                    let n = (rest.pos() - cur.pos() - 1) as nat;
                    assert(tail == after(1 + n, spec_record_fields_rest(s, rest.pos())));
                    lemma_after_after((cur.pos() - p0) as nat, 1 + n,
                        spec_record_fields_rest(s, rest.pos()));
                }
                cur = rest;
            },
            Err(ParseErr::Error) => {
                assert(tail == PRes::Parsed(0, ()));
                return Ok((cur, ()));
            },
            Err(e) => {
                return Err(e);
            },
        }
    }
}

/// `type-id { [id = exp { , id = exp }] }`: the variable named by the type id.
#[verifier::rlimit(100)]
pub fn parse_create_record_var<'a>(i: LSpan<'a>) -> (r: IResult<'a, TExpr>)
    requires
        !(spec_create_record_var(i.text(), i.pos()) is Abort),
    ensures
        conforms(r, i, spec_create_record_var(i.text(), i.pos()), |e: TExpr| e@),
    decreases rem(i.text(), i.pos()), 8nat,
{
    let (i1, field_id) = identifier(i)?;
    let i1 = space0(i1);
    if !tag1(&i1, '{') {
        return Err(ParseErr::Error);
    }
    let (i2, _) = parse_record_fields(i1.advance(1))?;
    if !tag1(&i2, '}') {
        return Err(ParseErr::Error);
    }
    let i3 = space0(i2.advance(1));
    let (i3, pos) = get_position(i3)?;
    let ghost name = field_id@;
    let v = TVar::SimpleVar(field_id, pos);
    assert(var_view(v) == SVar::SimpleVar(name, pos));
    let e = TExpr::Var(v);
    assert(expr_view(e) == SExpr::Var(var_view(v)));
    Ok((i3, e))
}

/// The optional `[ exp ]` size of an array creation.
fn parse_array_size<'a>(i: LSpan<'a>) -> (r: IResult<'a, Option<TExpr>>)
    requires
        !(spec_array_size(i.text(), i.pos()) is Abort),
    ensures
        conforms(
            r,
            i,
            spec_array_size(i.text(), i.pos()),
            |o: Option<TExpr>|
                match o {
                    Some(e) => Some(e@),
                    None => None,
                },
        ),
    decreases rem(i.text(), i.pos()), 7nat,
{
    let i1 = space0(i);
    if tag1(&i1, '[') {
        match parse_expr(i1.advance(1)) {
            Ok((i2, size)) => {
                if tag1(&i2, ']') {
                    return Ok((space0(i2.advance(1)), Some(size)));
                } else {
                    return Ok((i, None));
                }
            },
            Err(ParseErr::Error) => {
                return Ok((i, None));
            },
            Err(e) => {
                return Err(e);
            },
        }
    }
    Ok((i, None))
}

/// `type-id [exp] of exp`, also without the brackets; no size means 0.
#[verifier::rlimit(100)]
pub fn parse_create_array<'a>(i: LSpan<'a>) -> (r: IResult<'a, TExpr>)
    requires
        !(spec_create_array(i.text(), i.pos()) is Abort),
    ensures
        conforms(r, i, spec_create_array(i.text(), i.pos()), |e: TExpr| e@),
    decreases rem(i.text(), i.pos()), 8nat,
{
    let i0 = space0(i);
    let (e1, type_id) = parse_type_id(i0)?;
    let (c, size) = parse_array_size(e1)?;
    parse_array_of(i, c, type_id, size)
}

#[verifier::rlimit(100)]
#[verifier::spinoff_prover]
fn parse_array_of<'a>(i: LSpan<'a>, c: LSpan<'a>, type_id: String, size: Option<TExpr>) -> (r:
    IResult<'a, TExpr>)
    requires
        c.text() == i.text(),
        i.pos() < c.pos(),
        !(spec_array_of(
            i.text(),
            i.pos(),
            c.pos(),
            type_id@,
            match size {
                Some(e) => Some(e@),
                None => None,
            },
        ) is Abort),
    ensures
        conforms(
            r,
            i,
            spec_array_of(
                i.text(),
                i.pos(),
                c.pos(),
                type_id@,
                match size {
                    Some(e) => Some(e@),
                    None => None,
                },
            ),
            |e: TExpr| e@,
        ),
    decreases rem(c.text(), c.pos()) + 1, 6nat,
{
    let q3 = space0(c);
    if tag2(&q3, 'o', 'f') {
        let (i4, init) = parse_expr(q3.advance(2))?;
        let (i4, pos) = get_position(i4)?;
        let size = match size {
            Some(sz) => sz,
            None => {
                let z = TExpr::Int(0);
                assert(z@ == SExpr::Int(0));
                z
            },
        };
        let ghost tv = type_id@;
        let ghost sv = size@;
        let ghost iv = init@;
        let e = TExpr::Array { item_type: type_id, size: Box::new(size), init: Box::new(init), pos };
        assert(e@ == SExpr::Array { item_type: tv, size: Box::new(sv), init: Box::new(iv), pos });
        return Ok((i4, e));
    }
    if size.is_some() {
        return Err(ParseErr::Error);
    }
    let (q5, size) = match parse_size_literal(q3) {
        Ok(x) => x,
        Err(_) => {
            return Err(ParseErr::Error);
        },
    };
    parse_array_bare_of(i, space0(q5), type_id, size)
}

fn parse_array_bare_of<'a>(i: LSpan<'a>, q5: LSpan<'a>, type_id: String, size: TExpr) -> (r:
    IResult<'a, TExpr>)
    requires
        q5.text() == i.text(),
        i.pos() < q5.pos(),
        !(spec_array_bare_of(i.text(), i.pos(), q5.pos(), type_id@, size@) is Abort),
    ensures
        conforms(
            r,
            i,
            spec_array_bare_of(i.text(), i.pos(), q5.pos(), type_id@, size@),
            |e: TExpr| e@,
        ),
    decreases rem(q5.text(), q5.pos()) + 1, 5nat,
{
    if !tag2(&q5, 'o', 'f') {
        return Err(ParseErr::Error);
    }
    let (i6, init) = match parse_expr(q5.advance(2)) {
        Ok(x) => x,
        Err(_) => {
            return Err(ParseErr::Error);
        },
    };
    let (i6, pos) = get_position(i6)?;
    Ok((i6, TExpr::Array { item_type: type_id, size: Box::new(size), init: Box::new(init), pos }))
}

/// A size given without brackets: a decimal literal; a literal that does
/// not fit in `i64` is no size.
fn parse_size_literal<'a>(i: LSpan<'a>) -> (r: IResult<'a, TExpr>)
    ensures
        conforms(r, i, spec_size_literal(i.text(), i.pos()), |e: TExpr| e@),
{
    let ghost s = i.text();
    let ghost p = i.pos();
    let n = digit_count(&i);
    if n == 0 {
        return Err(ParseErr::Error);
    }
    let ghost ds = s.subrange(p as int, p + n);
    let mut v: i64 = 0;
    let mut k: usize = 0;
    proof {
        lemma_run_bounds(s, p);
        assert(ds.take(0) =~= Seq::<char>::empty());
    }
    while k < n
        invariant
            p + n <= s.len(),
            s == i.text(),
            p == i.pos(),
            ds == s.subrange(p as int, p + n),
            n == digit_run(s, p),
            k <= n,
            0 <= v,
            v == digits_value(ds.take(k as int)),
        decreases n - k,
    {
        let c = match i.peek_at(k) {
            Some(c) => c,
            None => {
                return Err(ParseErr::Error);
            },
        };
        proof {
            lemma_run_bounds(s, p);
            lemma_digits_value_prefix(ds, (k + 1) as nat);
            assert(ds.take(k + 1).drop_last() =~= ds.take(k as int));
            assert(ds.take(k + 1).last() == c);
            assert(is_digit(s[p + k]));
        }
        let d = ((c as u32) - ('0' as u32)) as i64;
        let next = match v.checked_mul(10) {
            Some(m) => m.checked_add(d),
            None => None,
        };
        match next {
            Some(w) => {
                v = w;
            },
            None => {
                return Err(ParseErr::Error);
            },
        }
        k = k + 1;
    }
    proof {
        assert(ds.take(n as int) =~= ds);
    }
    Ok((i.advance(n), TExpr::Int(v)))
}

/// The arguments of a call, separated by commas.
fn parse_call_args<'a>(i: LSpan<'a>) -> (r: IResult<'a, Vec<Box<TExpr>>>)
    requires
        !(spec_call_args(i.text(), i.pos()) is Abort),
    ensures
        conforms(
            r,
            i,
            spec_call_args(i.text(), i.pos()),
            |v: Vec<Box<TExpr>>| exprs_view(v@),
        ),
    decreases rem(i.text(), i.pos()), 12nat,
{
    let ghost s = i.text();
    let ghost p0 = i.pos();
    let mut v: Vec<Box<TExpr>> = Vec::new();
    let mut cur = match parse_expr(i) {
        Ok((rest, first)) => {
            let b = Box::new(first);
            v.push(b);
            proof {
                lemma_exprs_view_push(Seq::empty(), b);
                assert(Seq::<Box<TExpr>>::empty().push(b) =~= v@);
                assert(exprs_view(Seq::<Box<TExpr>>::empty()) =~= Seq::<SExpr>::empty());
                lemma_prefixed_empty(spec_call_args(s, p0));
                lemma_prefixed_cons(Seq::<SExpr>::empty(), 0, first@, (rest.pos() - p0) as nat,
                    spec_call_args_rest(s, rest.pos()));
                assert(Seq::<SExpr>::empty().push(first@) =~= exprs_view(v@));
            }
            rest
        },
        Err(ParseErr::Error) => {
            assert(exprs_view(v@) =~= Seq::<SExpr>::empty());
            return Ok((i, v));
        },
        Err(e) => {
            return Err(e);
        },
    };
    loop
        invariant
            i.text() == s,
            i.pos() == p0,
            cur.text() == s,
            p0 <= cur.pos(),
            spec_call_args(s, p0) == prefixed(
                exprs_view(v@),
                (cur.pos() - p0) as nat,
                spec_call_args_rest(s, cur.pos()),
            ),
            !(spec_call_args(s, p0) is Abort),
        decreases rem(s, cur.pos()),
    {
        let ghost tail = spec_call_args_rest(s, cur.pos());
        if !tag1(&cur, ',') {
            proof {
                assert(tail == PRes::Parsed(0, Seq::<SExpr>::empty()));
                lemma_prefixed_done(exprs_view(v@), (cur.pos() - p0) as nat);
            }
            return Ok((cur, v));
        }
        proof {
            if spec_expr(s, cur.pos() + 1) is Abort {
                assert(tail is Abort);
            }
        }
        match parse_expr(cur.advance(1)) {
            Ok((rest, e)) => {
                let ghost old_v = v@;
                let ghost n = (rest.pos() - cur.pos() - 1) as nat;
                let be = Box::new(e);
                v.push(be);
                proof {
                    assert(tail == cons(e@, 1 + n, spec_call_args_rest(s, rest.pos())));
                    lemma_prefixed_cons(exprs_view(old_v), (cur.pos() - p0) as nat, e@, 1 + n,
                        spec_call_args_rest(s, rest.pos()));
                    lemma_exprs_view_push(old_v, be);
                    assert(old_v.push(be) =~= v@);
                }
                cur = rest;
            },
            Err(ParseErr::Error) => {
                proof {
                    assert(tail == PRes::Parsed(0, Seq::<SExpr>::empty()));
                    lemma_prefixed_done(exprs_view(v@), (cur.pos() - p0) as nat);
                }
                return Ok((cur, v));
            },
            Err(e) => {
                return Err(e);
            },
        }
    }
}

/// `id ( [exp { , exp }] )`.
pub fn parse_call<'a>(i: LSpan<'a>) -> (r: IResult<'a, TExpr>)
    requires
        !(spec_call(i.text(), i.pos()) is Abort),
    ensures
        conforms(r, i, spec_call(i.text(), i.pos()), |e: TExpr| e@),
    decreases rem(i.text(), i.pos()), 8nat,
{
    let (i1, id) = delimited_space0(identifier, i)?;
    if !tag1(&i1, '(') {
        return Err(ParseErr::Error);
    }
    let (i2, args) = parse_call_args(i1.advance(1))?;
    if !tag1(&i2, ')') {
        return Err(ParseErr::Error);
    }
    let (i3, pos) = get_position(i2.advance(1))?;
    Ok((i3, TExpr::Call { fun: id, args, pos }))
}


// ---------------------------------------------------------------------------
// Operators, assignment and blocks
// ---------------------------------------------------------------------------

pub open spec fn is_binary_op_char(c: char) -> bool {
    c == '+' || c == '-' || c == '*' || c == '/'
}

pub open spec fn is_unary_op_char(c: char) -> bool {
    c == '-' || c == '&' || c == '|'
}

// exp op exp, op one of + - * /; the tree records the operation as `Plus`
pub open spec fn spec_binary_expr(s: Seq<char>, p: nat) -> PRes<SExpr> {
    let q0 = skip_ws(s, p);
    match spec_expr(s, q0) {
        PRes::Parsed(n1, lhs) => {
            let q1 = skip_ws(s, q0 + n1);
            if q1 < s.len() && is_binary_op_char(s[q1 as int]) {
                let q2 = skip_ws(s, q1 + 1);
                match spec_expr(s, q2) {
                    PRes::Parsed(n2, rhs) => PRes::Parsed(
                        (q2 + n2 - p) as nat,
                        SExpr::BinaryOp {
                            op_type: BinaryOpCode::Plus,
                            left: Box::new(lhs),
                            right: Box::new(rhs),
                            pos: span_at(s, q2 + n2),
                        },
                    ),
                    r => pfail(r),
                }
            } else {
                PRes::Error
            }
        },
        r => pfail(r),
    }
}

// op exp, op one of - & |; the tree records the operation as `Neg`
pub open spec fn spec_unary_expr(s: Seq<char>, p: nat) -> PRes<SExpr> {
    let q0 = skip_ws(s, p);
    if q0 < s.len() && is_unary_op_char(s[q0 as int]) {
        let q1 = skip_ws(s, q0 + 1);
        match spec_expr(s, q1) {
            PRes::Parsed(n, v) => PRes::Parsed(
                (q1 + n - p) as nat,
                SExpr::UnaryOp {
                    op_type: UnaryOpCode::Neg,
                    value: Box::new(v),
                    pos: span_at(s, q1 + n),
                },
            ),
            r => pfail(r),
        }
    } else {
        PRes::Error
    }
}

// lvalue := exp
pub open spec fn spec_assign(s: Seq<char>, p: nat) -> PRes<SExpr> {
    let q0 = skip_ws(s, p);
    match spec_lvalue(s, q0) {
        PRes::Parsed(n1, lv) => {
            let q1 = skip_ws(s, q0 + n1);
            if spec_tag(s, q1, seq![':', '=']) {
                let q2 = skip_ws(s, q1 + 2);
                match spec_expr(s, q2) {
                    PRes::Parsed(n2, e) => match lv {
                        SExpr::Var(v) => PRes::Parsed(
                            (q2 + n2 - p) as nat,
                            SExpr::Assign { var: v, expr: Box::new(e), pos: span_at(s, q2 + n2) },
                        ),
                        _ => PRes::Incomplete,
                    },
                    r => pfail(r),
                }
            } else {
                PRes::Error
            }
        },
        r => pfail(r),
    }
}

// an expression as a block of the source
pub open spec fn spec_block_expr(s: Seq<char>, p: nat) -> PRes<SBlock> {
    match spec_expr(s, p) {
        PRes::Parsed(n, e) => PRes::Parsed(n, SBlock::Expr(e)),
        r => pfail(r),
    }
}

/// `exp op exp` for `op` one of `+ - * /`.
pub fn parse_binary_expr<'a>(i: LSpan<'a>) -> (r: IResult<'a, TExpr>)
    requires
        !(spec_binary_expr(i.text(), i.pos()) is Abort),
    ensures
        conforms(r, i, spec_binary_expr(i.text(), i.pos()), |e: TExpr| e@),
{
    let ghost s = i.text();
    let i0 = space0(i);
    let (i1, lhs) = parse_expr(i0)?;
    let i1 = space0(i1);
    let op = i1.peek_at(0);
    match op {
        Some(c) => {
            if !(c == '+' || c == '-' || c == '*' || c == '/') {
                return Err(ParseErr::Error);
            }
        },
        None => {
            return Err(ParseErr::Error);
        },
    }
    let i2 = space0(i1.advance(1));
    let (i3, rhs) = parse_expr(i2)?;
    let (i3, pos) = get_position(i3)?;
    let ghost lv = lhs@;
    let ghost rv = rhs@;
    let e = TExpr::BinaryOp {
        op_type: BinaryOpCode::Plus,
        left: Box::new(lhs),
        right: Box::new(rhs),
        pos,
    };
    assert(e@ == SExpr::BinaryOp {
        op_type: BinaryOpCode::Plus,
        left: Box::new(lv),
        right: Box::new(rv),
        pos,
    });
    Ok((i3, e))
}

/// `op exp` for `op` one of `- & |`.
pub fn parse_unary_expr<'a>(i: LSpan<'a>) -> (r: IResult<'a, TExpr>)
    requires
        !(spec_unary_expr(i.text(), i.pos()) is Abort),
    ensures
        conforms(r, i, spec_unary_expr(i.text(), i.pos()), |e: TExpr| e@),
{
    let i0 = space0(i);
    match i0.peek_at(0) {
        Some(c) => {
            if !(c == '-' || c == '&' || c == '|') {
                return Err(ParseErr::Error);
            }
        },
        None => {
            return Err(ParseErr::Error);
        },
    }
    let i1 = space0(i0.advance(1));
    let (i2, item) = parse_expr(i1)?;
    let (i2, pos) = get_position(i2)?;
    let ghost v = item@;
    let e = TExpr::UnaryOp { op_type: UnaryOpCode::Neg, value: Box::new(item), pos };
    assert(e@ == SExpr::UnaryOp { op_type: UnaryOpCode::Neg, value: Box::new(v), pos });
    Ok((i2, e))
}

/// `lvalue := exp`.
pub fn parse_assign<'a>(i: LSpan<'a>) -> (r: IResult<'a, TExpr>)
    requires
        !(spec_assign(i.text(), i.pos()) is Abort),
    ensures
        conforms(r, i, spec_assign(i.text(), i.pos()), |e: TExpr| e@),
{
    let i0 = space0(i);
    let (i1, lvalue) = parse_lvalue(i0)?;
    let i1 = space0(i1);
    if !tag2(&i1, ':', '=') {
        return Err(ParseErr::Error);
    }
    let i2 = space0(i1.advance(2));
    let (i3, expr) = parse_expr(i2)?;
    let lvar = match lvalue {
        TExpr::Var(var) => var,
        _ => {
            return Err(ParseErr::Incomplete);
        },
    };
    let (i3, pos) = get_position(i3)?;
    let ghost vv = lvar@;
    let ghost ev = expr@;
    let e = TExpr::Assign { var: lvar, expr: Box::new(expr), pos };
    assert(e@ == SExpr::Assign { var: vv, expr: Box::new(ev), pos });
    Ok((i3, e))
}

/// An expression as a block of the source.
pub fn parse_block_expr<'a>(i: LSpan<'a>) -> (r: IResult<'a, TSourceBlock>)
    requires
        !(spec_block_expr(i.text(), i.pos()) is Abort),
    ensures
        conforms(r, i, spec_block_expr(i.text(), i.pos()), |b: TSourceBlock| b@),
{
    let (i, expr) = parse_expr(i)?;
    Ok((i, TSourceBlock::Expr(Box::new(expr))))
}


// ---------------------------------------------------------------------------
// Laws
// ---------------------------------------------------------------------------

/// An expression takes the white space that follows it: what is left after
/// it does not start with white space.
pub proof fn law_expr_consumes_trailing_space(s: Seq<char>, p: nat)
    ensures
        spec_expr(s, p) matches PRes::Parsed(n, _) ==> ws_len(s, p + n) == 0,
{
    let q = skip_ws(s, p);
    if let PRes::Parsed(n, _) = spec_expr_alt(s, q) {
        lemma_skip_ws_idempotent(s, q + n);
    }
}

/// White space in front of an expression changes nothing but the number of
/// characters consumed.
pub proof fn law_expr_leading_space(s: Seq<char>, p: nat)
    ensures
        spec_expr(s, p) == after(ws_len(s, p), spec_expr(s, skip_ws(s, p))),
{
    let q = skip_ws(s, p);
    lemma_skip_ws_idempotent(s, p);
    assert(skip_ws(s, q) == q);
}


/// A let expression holds the declarations read right after `let`, and its
/// body is the sequence of expressions read right after the `in` that
/// follows them.
pub proof fn law_let_parts(s: Seq<char>, p: nat)
    ensures
        spec_let(s, p) matches PRes::Parsed(_, SExpr::Let { decs, body, .. }) ==> {
            let q0 = skip_ws(s, p);
            &&& spec_tag(s, q0, seq!['l', 'e', 't'])
            &&& spec_decs(s, q0 + 3) matches PRes::Parsed(n1, ds)
            &&& ds == decs
            &&& spec_tag(s, skip_ws(s, q0 + 3 + n1), seq!['i', 'n'])
            &&& spec_expr_sequence(s, skip_ws(s, q0 + 3 + n1) + 2) matches PRes::Parsed(_, b)
            &&& b == *body
        },
{
}

/// An if expression holds the expression read right after `if` as its
/// condition and the one read right after `then` as its then branch; its
/// else branch is the expression read right after a following `else`, and
/// `nil` where there is none.
pub proof fn law_if_parts(s: Seq<char>, p: nat)
    ensures
        spec_if(s, p) matches PRes::Parsed(_, SExpr::If { cond, if_expr, else_expr, .. }) ==> {
            let q0 = skip_ws(s, p);
            &&& spec_tag(s, q0, seq!['i', 'f'])
            &&& spec_expr(s, q0 + 2) matches PRes::Parsed(n1, c)
            &&& c == *cond
            &&& spec_tag(s, q0 + 2 + n1, seq!['t', 'h', 'e', 'n'])
            &&& spec_expr(s, q0 + 6 + n1) matches PRes::Parsed(n2, t)
            &&& t == *if_expr
            &&& if spec_tag(s, q0 + 6 + n1 + n2, seq!['e', 'l', 's', 'e']) && spec_expr(
                s,
                q0 + 10 + n1 + n2,
            ) is Parsed {
                spec_expr(s, q0 + 10 + n1 + n2) matches PRes::Parsed(_, e) && e == *else_expr
            } else {
                *else_expr == SExpr::Nil
            }
        },
{
}

/// The else branch is optional: `if c then t` with no `else` after it parses,
/// up to the end of `t`, with `nil` as its else branch.
pub proof fn law_if_without_else(s: Seq<char>, p: nat, n1: nat, c: SExpr, n2: nat, t: SExpr)
    requires
        spec_tag(s, skip_ws(s, p), seq!['i', 'f']),
        spec_expr(s, skip_ws(s, p) + 2) == PRes::Parsed(n1, c),
        spec_tag(s, skip_ws(s, p) + 2 + n1, seq!['t', 'h', 'e', 'n']),
        spec_expr(s, skip_ws(s, p) + 6 + n1) == PRes::Parsed(n2, t),
        !spec_tag(s, skip_ws(s, p) + 6 + n1 + n2, seq!['e', 'l', 's', 'e']),
    ensures
        spec_if(s, p) == PRes::Parsed(
            (skip_ws(s, p) + 6 + n1 + n2 - p) as nat,
            SExpr::If {
                cond: Box::new(c),
                if_expr: Box::new(t),
                else_expr: Box::new(SExpr::Nil),
                pos: span_at(s, skip_ws(s, p) + 6 + n1 + n2),
            },
        ),
{
}

/// A while loop holds the expression read right after `while` as its
/// condition and the one read right after `do` as its body.
pub proof fn law_while_parts(s: Seq<char>, p: nat)
    ensures
        spec_while(s, p) matches PRes::Parsed(_, SExpr::While { cond, body, .. }) ==> {
            let q0 = skip_ws(s, p);
            &&& spec_tag(s, q0, seq!['w', 'h', 'i', 'l', 'e'])
            &&& spec_expr(s, q0 + 5) matches PRes::Parsed(n1, c)
            &&& c == *cond
            &&& spec_tag(s, q0 + 5 + n1, seq!['d', 'o'])
            &&& spec_expr(s, q0 + 7 + n1) matches PRes::Parsed(_, b)
            &&& b == *body
        },
{
}

/// A for loop holds the name read after `for`, the bounds read after `:=`
/// and `to`, and the body read after `do`.
pub proof fn law_for_parts(s: Seq<char>, p: nat)
    ensures
        spec_for(s, p) matches PRes::Parsed(_, SExpr::For { var, low, high, body, escape, .. }) ==> {
            let q0 = skip_ws(s, p);
            let q1 = skip_ws(s, q0 + 3);
            &&& spec_tag(s, q0, seq!['f', 'o', 'r'])
            &&& !escape
            &&& spec_identifier(s, q1) matches PRes::Parsed(n1, v)
            &&& v == var
            &&& spec_tag(s, skip_ws(s, q1 + n1), seq![':', '='])
            &&& spec_expr(s, skip_ws(s, q1 + n1) + 2) matches PRes::Parsed(n3, lo)
            &&& lo == *low
            &&& spec_tag(s, skip_ws(s, q1 + n1) + 2 + n3, seq!['t', 'o'])
            &&& spec_expr(s, skip_ws(s, q1 + n1) + 4 + n3) matches PRes::Parsed(n4, hi)
            &&& hi == *high
            &&& spec_tag(s, skip_ws(s, q1 + n1) + 4 + n3 + n4, seq!['d', 'o'])
            &&& spec_expr(s, skip_ws(s, q1 + n1) + 6 + n3 + n4) matches PRes::Parsed(_, b)
            &&& b == *body
        },
{
}

/// A call holds the name read first and, as its arguments, the whole list
/// that is read between its brackets.
pub proof fn law_call_parts(s: Seq<char>, p: nat)
    ensures
        spec_call(s, p) matches PRes::Parsed(_, SExpr::Call { fun, args, .. }) ==> {
            let q0 = skip_ws(s, p);
            &&& spec_identifier(s, q0) matches PRes::Parsed(n1, name)
            &&& name == fun
            &&& spec_tag(s, skip_ws(s, q0 + n1), seq!['('])
            &&& spec_call_args(s, skip_ws(s, q0 + n1) + 1) matches PRes::Parsed(n2, a)
            &&& a == args
            &&& spec_tag(s, skip_ws(s, q0 + n1) + 1 + n2, seq![')'])
        },
{
}

/// An argument list starts with the expression read at its start, and stops
/// only where no `, exp` follows: it is empty only where no expression
/// starts, and otherwise takes every argument there is.
pub proof fn law_call_args_take_all(s: Seq<char>, p: nat)
    ensures
        spec_call_args(s, p) matches PRes::Parsed(n, es) ==> {
            &&& es.len() == 0 <==> spec_expr(s, p) is Error
            &&& es.len() > 0 ==> (spec_expr(s, p) matches PRes::Parsed(_, e) && e == es[0])
            &&& es.len() > 0 ==> !(spec_tag(s, p + n, seq![',']) && spec_expr(s, p + n + 1) is Parsed)
        },
{
    if let PRes::Parsed(n0, e) = spec_expr(s, p) {
        lemma_call_args_rest_maximal(s, p + n0);
    }
}

proof fn lemma_call_args_rest_maximal(s: Seq<char>, p: nat)
    ensures
        spec_call_args_rest(s, p) matches PRes::Parsed(n, _) ==> !(spec_tag(s, p + n, seq![','])
            && spec_expr(s, p + n + 1) is Parsed),
    decreases rem(s, p),
{
    if spec_tag(s, p, seq![',']) {
        if let PRes::Parsed(m, e) = spec_expr(s, p + 1) {
            lemma_call_args_rest_maximal(s, p + 1 + m);
            if let PRes::Parsed(k, _) = spec_call_args_rest(s, p + 1 + m) {
                assert(p + (1 + m + k) == p + 1 + m + k);
            }
        }
    }
}

/// A binary operation holds the expression read first as its left operand
/// and the one read after the operator character as its right operand.
pub proof fn law_binary_parts(s: Seq<char>, p: nat)
    ensures
        spec_binary_expr(s, p) matches PRes::Parsed(_, SExpr::BinaryOp { left, right, .. }) ==> {
            let q0 = skip_ws(s, p);
            &&& spec_expr(s, q0) matches PRes::Parsed(n1, l)
            &&& l == *left
            &&& skip_ws(s, q0 + n1) < s.len()
            &&& is_binary_op_char(s[skip_ws(s, q0 + n1) as int])
            &&& spec_expr(s, skip_ws(s, skip_ws(s, q0 + n1) + 1)) matches PRes::Parsed(_, r)
            &&& r == *right
        },
{
}

/// A unary operation holds the expression read after its operator character.
pub proof fn law_unary_parts(s: Seq<char>, p: nat)
    ensures
        spec_unary_expr(s, p) matches PRes::Parsed(_, SExpr::UnaryOp { value, .. }) ==> {
            let q0 = skip_ws(s, p);
            &&& q0 < s.len()
            &&& is_unary_op_char(s[q0 as int])
            &&& spec_expr(s, skip_ws(s, q0 + 1)) matches PRes::Parsed(_, v)
            &&& v == *value
        },
{
}

/// An assignment assigns to the variable named first the expression read
/// after `:=`.
pub proof fn law_assign_parts(s: Seq<char>, p: nat)
    ensures
        spec_assign(s, p) matches PRes::Parsed(_, SExpr::Assign { var, expr, .. }) ==> {
            let q0 = skip_ws(s, p);
            &&& spec_identifier(s, q0) matches PRes::Parsed(n1, name)
            &&& var matches SVar::SimpleVar(vn, _)
            &&& vn == name
            &&& spec_tag(s, skip_ws(s, q0 + n1), seq![':', '='])
            &&& spec_expr(s, skip_ws(s, skip_ws(s, q0 + n1) + 2)) matches PRes::Parsed(_, e)
            &&& e == *expr
        },
{
    lemma_skip_ws_idempotent(s, p);
}

/// A record creation gives the variable named by its type name.
pub proof fn law_record_var_names_its_type(s: Seq<char>, p: nat)
    ensures
        spec_create_record_var(s, p) matches PRes::Parsed(_, SExpr::Var(SVar::SimpleVar(name, _)))
            ==> spec_identifier(s, p) matches PRes::Parsed(_, rid) && rid == name,
{
}

/// An array creation holds the type name read first, and as its initial
/// value the expression read after `of`; with a bracketed size, its size is
/// the expression between the brackets.
pub proof fn law_array_parts(s: Seq<char>, p: nat)
    ensures
        spec_create_array(s, p) matches PRes::Parsed(n, SExpr::Array { item_type, size, init, .. }) ==> {
            let q0 = skip_ws(s, p);
            &&& spec_identifier(s, q0) matches PRes::Parsed(n1, ty)
            &&& ty == item_type
            &&& spec_tag(s, skip_ws(s, q0 + n1), seq!['[']) ==> (spec_expr(s, skip_ws(s, q0 + n1) + 1)
                matches PRes::Parsed(n2, sz) ==> (spec_tag(s, skip_ws(s, q0 + n1) + 1 + n2, seq![']'])
                ==> sz == *size))
            &&& exists|k: nat| {
                &&& k < p + n
                &&& spec_tag(s, k, seq!['o', 'f'])
                &&& spec_expr(s, k + 2) matches PRes::Parsed(m, e)
                &&& k + 2 + m == p + n
                &&& e == *init
            }
        },
{
    let q0 = skip_ws(s, p);
    if let PRes::Parsed(n1, ty) = spec_identifier(s, q0) {
        let e1 = q0 + n1;
        if let PRes::Parsed(k, size) = spec_array_size(s, e1) {
            let q3 = skip_ws(s, e1 + k);
            if spec_tag(s, q3, seq!['o', 'f']) {
                if let PRes::Parsed(m, e) = spec_expr(s, q3 + 2) {
                    assert(spec_tag(s, q3, seq!['o', 'f']));
                }
            } else if size is None {
                if let PRes::Parsed(n5, sz) = spec_size_literal(s, q3) {
                    let q5 = skip_ws(s, q3 + n5);
                    if spec_tag(s, q5, seq!['o', 'f']) {
                        if let PRes::Parsed(m, e) = spec_expr(s, q5 + 2) {
                            assert(spec_tag(s, q5, seq!['o', 'f']));
                        }
                    }
                }
            }
        }
    }
}

/// A number literal takes the whole run of decimal digits at the read
/// position, and its value is the value of those digits.
pub proof fn law_number_value(s: Seq<char>, p: nat)
    ensures
        spec_number(s, p) matches PRes::Parsed(n, SExpr::Int(v)) ==> {
            &&& n > 0
            &&& p + n <= s.len()
            &&& forall|k: int| p <= k < p + n ==> is_digit(#[trigger] s[k])
            &&& p + n < s.len() ==> !is_digit(s[(p + n) as int])
            &&& v == digits_value(s.subrange(p as int, (p + n) as int))
        },
{
    lemma_run_bounds(s, p);
    lemma_digit_run_end(s, p);
}

proof fn lemma_digit_run_end(s: Seq<char>, p: nat)
    ensures
        p + digit_run(s, p) < s.len() ==> !is_digit(s[(p + digit_run(s, p)) as int]),
    decreases s.len() - p,
{
    if p < s.len() && is_digit(s[p as int]) {
        lemma_digit_run_end(s, p + 1);
    }
}

/// A string literal is the text between two double quotes, and holds only
/// spaces and lower-case letters.
pub proof fn law_string_contents(s: Seq<char>, p: nat)
    ensures
        spec_string(s, p) matches PRes::Parsed(n, SExpr::String(c, _)) ==> {
            &&& n == c.len() + 2
            &&& p + n <= s.len()
            &&& s[p as int] == '"'
            &&& s[(p + n - 1) as int] == '"'
            &&& c == s.subrange(p + 1 as int, p + n - 1 as int)
            &&& forall|k: int| 0 <= k < c.len() ==> is_string_char(#[trigger] c[k])
        },
{
    lemma_run_bounds(s, p + 1);
    lemma_string_run_chars(s, p + 1);
    if spec_string(s, p) is Parsed {
        reveal(chars_match);
        assert(s.subrange(p as int, p + 1 as int)[0] == seq!['"'][0]);
        let m = string_run(s, p + 1);
        assert(s.subrange((p + 1 + m) as int, (p + 1 + m + 1) as int)[0] == seq!['"'][0]);
    }
}

proof fn lemma_string_run_chars(s: Seq<char>, p: nat)
    ensures
        forall|k: int| p <= k < p + string_run(s, p) ==> is_string_char(#[trigger] s[k]),
    decreases s.len() - p,
{
    if p < s.len() && is_string_char(s[p as int]) {
        lemma_string_run_chars(s, p + 1);
    }
}

/// The last argument of a list is the expression that ends where the list
/// ends: no argument read is left out at the end.
pub proof fn law_call_args_last(s: Seq<char>, p: nat)
    ensures
        spec_call_args(s, p) matches PRes::Parsed(n, es) ==> (es.len() > 0 ==> exists|q: nat|
            p <= q <= p + n && #[trigger] spec_expr(s, q) == PRes::Parsed((p + n - q) as nat, es.last())),
{
    if let PRes::Parsed(n0, e) = spec_expr(s, p) {
        lemma_call_args_rest_last(s, p + n0);
        if let PRes::Parsed(k, rest) = spec_call_args_rest(s, p + n0) {
            if rest.len() == 0 {
                assert((seq![e] + rest).last() == e);
                assert(spec_expr(s, p) == PRes::Parsed((p + (n0 + k) - p) as nat, e));
            } else {
                assert((seq![e] + rest).last() == rest.last());
            }
        }
    }
}

proof fn lemma_call_args_rest_last(s: Seq<char>, p: nat)
    ensures
        spec_call_args_rest(s, p) matches PRes::Parsed(n, es) ==> {
            &&& es.len() == 0 ==> n == 0
            &&& es.len() > 0 ==> exists|q: nat|
                p < q <= p + n && #[trigger] spec_expr(s, q) == PRes::Parsed((p + n - q) as nat, es.last())
        },
    decreases rem(s, p),
{
    if spec_tag(s, p, seq![',']) {
        if let PRes::Parsed(m, e) = spec_expr(s, p + 1) {
            lemma_call_args_rest_last(s, p + 1 + m);
            if let PRes::Parsed(k, rest) = spec_call_args_rest(s, p + 1 + m) {
                if rest.len() == 0 {
                    assert((seq![e] + rest).last() == e);
                    assert(spec_expr(s, p + 1) == PRes::Parsed((p + (1 + m + k) - (p + 1)) as nat, e));
                } else {
                    assert((seq![e] + rest).last() == rest.last());
                }
            }
        }
    }
}

} // verus!
