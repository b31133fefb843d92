use vstd::prelude::*;
use crate::ir::expr::{get_position, LSpan, SDec, TDec, TFunDec, fields_view, span_at};
use crate::parser::common::{
    IResult, ParseErr, PRes, conforms, identifier, pfail, rem, skip_ws, space0,
    space1, spec_identifier, spec_multispace1, spec_tag, tag1, tag_function,
};
use crate::parser::expr::{parse_expr, spec_expr};
use crate::parser::ty::{parse_type_fields, spec_type_fields};

verus! {

broadcast use LSpan::lemma_pos_bound;

// fundec -> function white-space id(type-fields) = exp
pub open spec fn spec_fun(s: Seq<char>, p: nat) -> PRes<SDec>
    decreases rem(s, p), 13nat,
{
    let q0 = skip_ws(s, p);
    if spec_tag(s, q0, seq!['f', 'u', 'n', 'c', 't', 'i', 'o', 'n']) {
        match spec_multispace1(s, q0 + 8) {
            PRes::Parsed(m, _) => {
                let q2 = q0 + 8 + m;
                match spec_identifier(s, q2) {
                    PRes::Parsed(n2, name) => {
                        let q3 = q2 + n2;
                        if spec_tag(s, q3, seq!['(']) {
                            match spec_type_fields(s, q3 + 1) {
                                PRes::Parsed(n4, params) => {
                                    let q4 = q3 + 1 + n4;
                                    if spec_tag(s, q4, seq![')']) {
                                        let q5 = skip_ws(s, q4 + 1);
                                        if spec_tag(s, q5, seq!['=']) {
                                            let q6 = skip_ws(s, q5 + 1);
                                            match spec_expr(s, q6) {
                                                PRes::Parsed(n6, body) => PRes::Parsed(
                                                    (q6 + n6 - p) as nat,
                                                    SDec::FunDec {
                                                        name,
                                                        params,
                                                        body: Box::new(body),
                                                        pos: span_at(s, q6 + n6),
                                                    },
                                                ),
                                                r => pfail(r),
                                            }
                                        } else {
                                            PRes::Error
                                        }
                                    } else {
                                        PRes::Error
                                    }
                                },
                                r => pfail(r),
                            }
                        } else {
                            PRes::Error
                        }
                    },
                    r => pfail(r),
                }
            },
            r => pfail(r),
        }
    } else {
        PRes::Error
    }
}

/// A function declaration `function id(type-fields) = exp`.
pub fn parse_fun<'a>(i: LSpan<'a>) -> (r: IResult<'a, TDec>)
    requires
        !(spec_fun(i.text(), i.pos()) is Abort),
    ensures
        conforms(r, i, spec_fun(i.text(), i.pos()), |d: TDec| d@),
    decreases rem(i.text(), i.pos()), 13nat,
{
    let i0 = space0(i);
    if !tag_function(&i0) {
        return Err(ParseErr::Error);
    }
    let (i1, _) = space1(i0.advance(8))?;
    let (i2, name) = identifier(i1)?;
    if !tag1(&i2, '(') {
        return Err(ParseErr::Error);
    }
    let (i3, params) = parse_type_fields(i2.advance(1))?;
    if !tag1(&i3, ')') {
        return Err(ParseErr::Error);
    }
    let i4 = space0(i3.advance(1));
    if !tag1(&i4, '=') {
        return Err(ParseErr::Error);
    }
    let i5 = space0(i4.advance(1));
    let (i6, body) = parse_expr(i5)?;
    let (i6, pos) = get_position(i6)?;
    Ok((i6, TDec::FunDec(TFunDec { name, params, body: Box::new(body), pos })))
}


/// A function declaration holds the name read after `function` and the white
/// space after it, as its parameters the whole list of fields read between
/// the brackets that follow the name, and as its body the expression read
/// after the `=` that follows them.
pub proof fn law_fun_parts(s: Seq<char>, p: nat)
    ensures
        spec_fun(s, p) matches PRes::Parsed(_, SDec::FunDec { name, params, body, .. }) ==> {
            let q0 = skip_ws(s, p);
            let q2 = skip_ws(s, q0 + 8);
            &&& spec_tag(s, q0, seq!['f', 'u', 'n', 'c', 't', 'i', 'o', 'n'])
            &&& q2 > q0 + 8
            &&& spec_identifier(s, q2) matches PRes::Parsed(n2, nm)
            &&& nm == name
            &&& spec_tag(s, q2 + n2, seq!['('])
            &&& spec_type_fields(s, q2 + n2 + 1) matches PRes::Parsed(n4, ps)
            &&& ps == params
            &&& spec_tag(s, q2 + n2 + 1 + n4, seq![')'])
            &&& spec_tag(s, skip_ws(s, q2 + n2 + 2 + n4), seq!['='])
            &&& spec_expr(s, skip_ws(s, skip_ws(s, q2 + n2 + 2 + n4) + 1)) matches PRes::Parsed(_, b)
            &&& b == *body
        },
{
}

} // verus!
