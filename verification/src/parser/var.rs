use vstd::prelude::*;
use crate::ir::expr::{get_position, LSpan, SDec, SExpr, TDec, TExpr, TVarDec, span_at};
use crate::parser::common::{
    IResult, ParseErr, PRes, conforms, identifier, pfail, rem, skip_ws, space0,
    space1_streaming, spec_identifier, spec_multispace1_streaming, spec_tag, tag1, tag2, tag3,
};
use crate::parser::expr::{parse_expr, spec_expr};
use crate::parser::ty::parse_type_id;

verus! {

broadcast use LSpan::lemma_pos_bound;

/// The name `auto`, given to a variable declared without a type.
pub open spec fn auto_type() -> Seq<char> {
    seq!['a', 'u', 't', 'o']
}

/// The optional `:type-id` after a declared name: the characters it takes
/// and the type (`auto` when there is none).
pub open spec fn spec_var_type(s: Seq<char>, q: nat) -> (nat, Seq<char>) {
    if spec_tag(s, q, seq![':']) {
        match spec_identifier(s, q + 1) {
            PRes::Parsed(n, t) => (1 + n, t),
            _ => (0, auto_type()),
        }
    } else {
        (0, auto_type())
    }
}

// vardec -> var white-space id [:type-id] := exp
pub open spec fn spec_var(s: Seq<char>, p: nat) -> PRes<SDec>
    decreases rem(s, p), 13nat,
{
    if spec_tag(s, p, seq!['v', 'a', 'r']) {
        match spec_multispace1_streaming(s, p + 3) {
            PRes::Parsed(m, _) => {
                let q1 = p + 3 + m;
                match spec_identifier(s, q1) {
                    PRes::Parsed(n1, name) => spec_var_rest(s, p, q1 + n1, name),
                    r => pfail(r),
                }
            },
            r => pfail(r),
        }
    } else {
        PRes::Error
    }
}

// [:type-id] := exp: the rest of a variable declaration that began at `p`,
// after its name ended at `q2`
pub open spec fn spec_var_rest(s: Seq<char>, p: nat, q2: nat, name: Seq<char>) -> PRes<SDec>
    decreases rem(s, q2) + 1, 12nat,
{
    let (k, ty) = spec_var_type(s, q2);
    let q4 = skip_ws(s, q2 + k);
    if spec_tag(s, q4, seq![':', '=']) {
        let q5 = skip_ws(s, q4 + 2);
        match spec_expr(s, q5) {
            PRes::Parsed(n5, init) => PRes::Parsed(
                (q5 + n5 - p) as nat,
                SDec::VarDec {
                    name,
                    ty,
                    init: Box::new(init),
                    escape: false,
                    pos: span_at(s, q5 + n5),
                },
            ),
            r => pfail(r),
        }
    } else {
        PRes::Error
    }
}

/// A variable declaration `var id [:type-id] := exp`.
pub fn parse_var<'a>(i: LSpan<'a>) -> (r: IResult<'a, TDec>)
    requires
        !(spec_var(i.text(), i.pos()) is Abort),
    ensures
        conforms(r, i, spec_var(i.text(), i.pos()), |d: TDec| d@),
    decreases rem(i.text(), i.pos()), 13nat,
{
    if !tag3(&i, 'v', 'a', 'r') {
        return Err(ParseErr::Error);
    }
    let (i1, _) = space1_streaming(i.advance(3))?;
    let (i2, name) = identifier(i1)?;
    parse_var_rest(i, i2, name)
}

#[verifier::rlimit(100)]
#[verifier::spinoff_prover]
fn parse_var_rest<'a>(i: LSpan<'a>, i2: LSpan<'a>, name: String) -> (r: IResult<'a, TDec>)
    requires
        i2.text() == i.text(),
        i.pos() < i2.pos(),
        !(spec_var_rest(i.text(), i.pos(), i2.pos(), name@) is Abort),
    ensures
        conforms(r, i, spec_var_rest(i.text(), i.pos(), i2.pos(), name@), |d: TDec| d@),
    decreases rem(i2.text(), i2.pos()) + 1, 12nat,
{
    let ghost s = i.text();
    let mut i3 = i2;
    let mut ty = "auto".to_owned();
    proof {
        reveal_strlit("auto");
        assert(ty@ =~= auto_type());
    }
    if tag1(&i2, ':') {
        match parse_type_id(i2.advance(1)) {
            Ok((rest, t)) => {
                i3 = rest;
                ty = t;
            },
            Err(_) => {},
        }
    }
    assert(i3.pos() == i2.pos() + spec_var_type(s, i2.pos()).0);
    assert(ty@ == spec_var_type(s, i2.pos()).1);
    let i4 = space0(i3);
    if !tag2(&i4, ':', '=') {
        return Err(ParseErr::Error);
    }
    let i5 = space0(i4.advance(2));
    let (i6, init) = parse_expr(i5)?;
    let (i6, pos) = get_position(i6)?;
    let d = TDec::VarDec(TVarDec { name, ty, init: Box::new(init), escape: false, pos });
    Ok((i6, d))
}

/// A variable declaration declares the name read after `var` and white
/// space, of the type read after a `:` right behind the name (`auto` where
/// there is none), initialised with the expression read after `:=`; it is
/// never marked as escaping.
pub proof fn law_var_parts(s: Seq<char>, p: nat)
    ensures
        spec_var(s, p) matches PRes::Parsed(_, SDec::VarDec { name, ty, init, escape, .. }) ==> {
            let q1 = skip_ws(s, p + 3);
            &&& spec_tag(s, p, seq!['v', 'a', 'r'])
            &&& q1 > p + 3
            &&& !escape
            &&& spec_identifier(s, q1) matches PRes::Parsed(n1, nm)
            &&& nm == name
            &&& {
                let q2 = q1 + n1;
                let typed = spec_tag(s, q2, seq![':']) && spec_identifier(s, q2 + 1) is Parsed;
                let q3 = if typed {
                    q2 + 1 + ty.len()
                } else {
                    q2
                };
                &&& typed ==> (spec_identifier(s, q2 + 1) matches PRes::Parsed(_, t) && t == ty)
                &&& !typed ==> ty == auto_type()
                &&& spec_tag(s, skip_ws(s, q3), seq![':', '='])
                &&& spec_expr(s, skip_ws(s, skip_ws(s, q3) + 2)) matches PRes::Parsed(_, e)
                &&& e == *init
            }
        },
{
    let q2 = skip_ws(s, p + 3) ;
    if spec_tag(s, p, seq!['v', 'a', 'r']) {
        if let PRes::Parsed(n1, _) = spec_identifier(s, q2) {
            if spec_tag(s, q2 + n1, seq![':']) {
                if let PRes::Parsed(n, t) = spec_identifier(s, q2 + n1 + 1) {
                    crate::parser::common::law_identifier_is_maximal_word(s, q2 + n1 + 1);
                }
            }
        }
    }
}

} // verus!
