use vstd::prelude::*;
use crate::ir::expr::{
    LSpan, SBlock, SDec, SNameType, TDec, TNameType, TSourceBlock, dec_view, decs_view,
    lemma_decs_view_push, name_types_view,
};
use crate::parser::common::{
    IResult, ParseErr, PRes, conforms, cons, identifier, lemma_prefixed_cons, lemma_prefixed_done,
    lemma_prefixed_empty, pfail, prefixed, rem, skip_ws, space0, spec_identifier, spec_tag, tag1,
    tag4,
};
use crate::parser::fun::{parse_fun, spec_fun};
use crate::parser::ty::{parse_type, spec_type};
use crate::parser::var::{parse_var, spec_var};

verus! {

broadcast use LSpan::lemma_pos_bound;

// tydec -> type type-id = ty, with white space around each part
pub open spec fn spec_type_dec(s: Seq<char>, p: nat) -> PRes<SDec> {
    let q0 = skip_ws(s, p);
    if spec_tag(s, q0, seq!['t', 'y', 'p', 'e']) {
        let q1 = skip_ws(s, q0 + 4);
        match spec_identifier(s, q1) {
            PRes::Parsed(n1, name) => {
                let q2 = skip_ws(s, q1 + n1);
                if spec_tag(s, q2, seq!['=']) {
                    let q3 = skip_ws(s, q2 + 1);
                    match spec_type(s, q3) {
                        PRes::Parsed(n3, ty) => {
                            let q4 = skip_ws(s, q3 + n3);
                            PRes::Parsed(
                                (q4 - p) as nat,
                                SDec::TypeDec(seq![SNameType { name, ty }]),
                            )
                        },
                        r => pfail(r),
                    }
                } else {
                    PRes::Error
                }
            },
            r => pfail(r),
        }
    } else {
        PRes::Error
    }
}

// dec -> tydec | vardec | fundec
pub open spec fn spec_dec(s: Seq<char>, p: nat) -> PRes<SDec>
    decreases rem(s, p), 14nat,
{
    let r1 = spec_type_dec(s, p);
    if !(r1 is Error) {
        r1
    } else {
        let r2 = spec_var(s, p);
        if !(r2 is Error) {
            r2
        } else {
            spec_fun(s, p)
        }
    }
}

// decs -> { dec }: as many declarations as follow; a declaration that
// consumes nothing stops the list with an error
pub open spec fn spec_decs(s: Seq<char>, p: nat) -> PRes<Seq<SDec>>
    decreases rem(s, p), 15nat,
{
    match spec_dec(s, p) {
        PRes::Parsed(n, d) => if n == 0 || p + n > s.len() {
            PRes::Error
        } else {
            cons(d, n, spec_decs(s, p + n))
        },
        PRes::Error => PRes::Parsed(0, Seq::empty()),
        r => pfail(r),
    }
}

/// A type declaration `type type-id = ty`.
pub fn parse_type_dec<'a>(i: LSpan<'a>) -> (r: IResult<'a, TDec>)
    ensures
        conforms(r, i, spec_type_dec(i.text(), i.pos()), |d: TDec| d@),
{
    let i0 = space0(i);
    if !tag4(&i0, 't', 'y', 'p', 'e') {
        return Err(ParseErr::Error);
    }
    let i1 = space0(i0.advance(4));
    let (i2, type_id) = identifier(i1)?;
    let i2 = space0(i2);
    if !tag1(&i2, '=') {
        return Err(ParseErr::Error);
    }
    let i3 = space0(i2.advance(1));
    let (i4, type_info) = parse_type(i3)?;
    let i4 = space0(i4);
    let mut v: Vec<TNameType> = Vec::new();
    v.push(TNameType { name: type_id, ty: type_info });
    let d = TDec::TypeDec(v);
    proof {
        assert(name_types_view(v@) =~= seq![SNameType { name: v@[0].name@, ty: v@[0].ty@ }]);
    }
    Ok((i4, d))
}

/// A variable declaration.
pub fn parse_var_dec<'a>(i: LSpan<'a>) -> (r: IResult<'a, TDec>)
    requires
        !(spec_var(i.text(), i.pos()) is Abort),
    ensures
        conforms(r, i, spec_var(i.text(), i.pos()), |d: TDec| d@),
    decreases rem(i.text(), i.pos()), 14nat,
{
    parse_var(i)
}

/// A function declaration.
pub fn parse_fun_dec<'a>(i: LSpan<'a>) -> (r: IResult<'a, TDec>)
    requires
        !(spec_fun(i.text(), i.pos()) is Abort),
    ensures
        conforms(r, i, spec_fun(i.text(), i.pos()), |d: TDec| d@),
    decreases rem(i.text(), i.pos()), 14nat,
{
    parse_fun(i)
}

/// A declaration of a type, a variable or a function.
pub fn parse_dec<'a>(i: LSpan<'a>) -> (r: IResult<'a, TDec>)
    requires
        !(spec_dec(i.text(), i.pos()) is Abort),
    ensures
        conforms(r, i, spec_dec(i.text(), i.pos()), |d: TDec| d@),
    decreases rem(i.text(), i.pos()), 15nat,
{
    match parse_type_dec(i) {
        Err(ParseErr::Error) => {},
        r => return r,
    }
    match parse_var_dec(i) {
        Err(ParseErr::Error) => {},
        r => return r,
    }
    parse_fun_dec(i)
}

/// A declaration that parses takes at least one character: each kind starts
/// with its keyword.
pub proof fn lemma_dec_consumes(s: Seq<char>, p: nat)
    ensures
        spec_dec(s, p) matches PRes::Parsed(n, _) ==> n > 0,
{
}

/// As many declarations as follow. It never fails with a recoverable error:
/// where no declaration follows, it gives none and consumes nothing.
pub fn parse_decs<'a>(i: LSpan<'a>) -> (r: IResult<'a, Vec<TDec>>)
    requires
        !(spec_decs(i.text(), i.pos()) is Abort),
    ensures
        conforms(r, i, spec_decs(i.text(), i.pos()), |v: Vec<TDec>| decs_view(v@)),
        !(r matches Err(ParseErr::Error)),
    decreases rem(i.text(), i.pos()), 16nat,
{
    let ghost s = i.text();
    let ghost p0 = i.pos();
    let mut v: Vec<TDec> = Vec::new();
    let mut cur = i;
    proof {
        lemma_prefixed_empty(spec_decs(s, p0));
        assert(decs_view(v@) =~= Seq::<SDec>::empty());
    }
    loop
        invariant
            i.text() == s,
            i.pos() == p0,
            cur.text() == s,
            p0 <= cur.pos(),
            spec_decs(s, p0) == prefixed(decs_view(v@), (cur.pos() - p0) as nat, spec_decs(s, cur.pos())),
            !(spec_decs(s, p0) is Abort),
        decreases rem(s, cur.pos()),
    {
        let ghost tail = spec_decs(s, cur.pos());
        proof {
            if spec_dec(s, cur.pos()) is Abort {
                assert(tail is Abort);
            }
        }
        match parse_dec(cur) {
            Ok((rest, d)) => {
                proof {
                    lemma_dec_consumes(s, cur.pos());
                }
                if rest.index() == cur.index() {
                    return Err(ParseErr::Error);
                }
                let ghost old_v = v@;
                let ghost n = (rest.pos() - cur.pos()) as nat;
                v.push(d);
                proof {
                    assert(tail == cons(dec_view(d), n, spec_decs(s, rest.pos())));
                    lemma_prefixed_cons(decs_view(old_v), (cur.pos() - p0) as nat, dec_view(d), n,
                        spec_decs(s, rest.pos()));
                    lemma_decs_view_push(old_v, d);
                    assert(old_v.push(d) =~= v@);
                }
                cur = rest;
            },
            Err(ParseErr::Error) => {
                proof {
                    assert(tail == PRes::Parsed(0, Seq::<SDec>::empty()));
                    lemma_prefixed_done(decs_view(v@), (cur.pos() - p0) as nat);
                }
                return Ok((cur, v));
            },
            Err(e) => {
                return Err(e);
            },
        }
    }
}

/// A declaration as a block of the source.
pub fn parse_block_dec<'a>(i: LSpan<'a>) -> (r: IResult<'a, TSourceBlock>)
    requires
        !(spec_dec(i.text(), i.pos()) is Abort),
    ensures
        conforms(
            r,
            i,
            match spec_dec(i.text(), i.pos()) {
                PRes::Parsed(n, d) => PRes::Parsed(n, SBlock::Dec(d)),
                r => pfail(r),
            },
            |b: TSourceBlock| b@,
        ),
{
    let (rest, d) = parse_dec(i)?;
    Ok((rest, TSourceBlock::Dec(d)))
}

/// A type declaration names, as its only entry, the type read after `type`
/// as the type given after the `=`.
pub proof fn law_type_dec_parts(s: Seq<char>, p: nat)
    ensures
        spec_type_dec(s, p) matches PRes::Parsed(_, SDec::TypeDec(entries)) ==> {
            let q0 = skip_ws(s, p);
            let q1 = skip_ws(s, q0 + 4);
            &&& spec_tag(s, q0, seq!['t', 'y', 'p', 'e'])
            &&& entries.len() == 1
            &&& spec_identifier(s, q1) matches PRes::Parsed(n1, name)
            &&& entries[0].name == name
            &&& spec_tag(s, skip_ws(s, q1 + n1), seq!['='])
            &&& spec_type(s, skip_ws(s, skip_ws(s, q1 + n1) + 1)) matches PRes::Parsed(_, t)
            &&& entries[0].ty == t
        },
{
}

} // verus!
