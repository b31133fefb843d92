use vstd::prelude::*;
use crate::ir::expr::{LSpan, Span, SField, SType, TField, TType, fields_view, field_view, spec_span_default};
use crate::parser::common::{
    IResult, ParseErr, PRes, conforms, identifier, lemma_separated_list0_no_abort, parse_separated_list0, pfail, skip_ws, space0,
    space1, spec_identifier, spec_multispace1, spec_separated_list0, spec_tag, tag1, tag2, tag5,
};

verus! {

broadcast use LSpan::lemma_pos_bound;

// type-id
pub open spec fn spec_name_type(s: Seq<char>, p: nat) -> PRes<SType> {
    match spec_identifier(s, p) {
        PRes::Parsed(n, w) => PRes::Parsed(n, SType::NameType(w)),
        r => pfail(r),
    }
}

// id : type-id, with white space around the colon
pub open spec fn spec_type_field(s: Seq<char>, p: nat) -> PRes<SField> {
    match spec_identifier(s, p) {
        PRes::Parsed(n1, name) => {
            let q1 = skip_ws(s, p + n1);
            if spec_tag(s, q1, seq![':']) {
                let q2 = skip_ws(s, q1 + 1);
                match spec_identifier(s, q2) {
                    PRes::Parsed(n2, ty) => PRes::Parsed(
                        (q2 + n2 - p) as nat,
                        SField { name, ty, pos: spec_span_default() },
                    ),
                    r => pfail(r),
                }
            } else {
                PRes::Error
            }
        },
        r => pfail(r),
    }
}

// ,
pub open spec fn spec_comma(s: Seq<char>, p: nat) -> PRes<()> {
    if spec_tag(s, p, seq![',']) {
        PRes::Parsed(1, ())
    } else {
        PRes::Error
    }
}

/// `spec_comma` as a value.
pub open spec fn comma_spec() -> spec_fn(Seq<char>, nat) -> PRes<()> {
    |s: Seq<char>, p: nat| spec_comma(s, p)
}

/// `spec_type_field` as a value.
pub open spec fn type_field_spec() -> spec_fn(Seq<char>, nat) -> PRes<SField> {
    |s: Seq<char>, p: nat| spec_type_field(s, p)
}

/// `field_view` as a value.
pub open spec fn field_view_fn() -> spec_fn(TField) -> SField {
    |f: TField| field_view(f)
}

// type-fields -> (empty) | field { , field }, with white space around each field
pub open spec fn spec_type_fields(s: Seq<char>, p: nat) -> PRes<Seq<SField>> {
    spec_separated_list0(comma_spec(), type_field_spec(), s, p)
}

// array [white space] of white-space type-id
pub open spec fn spec_array_type(s: Seq<char>, p: nat) -> PRes<SType> {
    if spec_tag(s, p, seq!['a', 'r', 'r', 'a', 'y']) {
        let q1 = skip_ws(s, p + 5);
        if spec_tag(s, q1, seq!['o', 'f']) {
            match spec_multispace1(s, q1 + 2) {
                PRes::Parsed(m, _) => {
                    let q3 = q1 + 2 + m;
                    match spec_identifier(s, q3) {
                        PRes::Parsed(n, w) => PRes::Parsed(
                            (q3 + n - p) as nat,
                            SType::ArrayType(w),
                        ),
                        r => pfail(r),
                    }
                },
                r => pfail(r),
            }
        } else {
            PRes::Error
        }
    } else {
        PRes::Error
    }
}

// { type-fields }
pub open spec fn spec_record_type(s: Seq<char>, p: nat) -> PRes<SType> {
    if spec_tag(s, p, seq!['{']) {
        match spec_type_fields(s, p + 1) {
            PRes::Parsed(n, fs) => if spec_tag(s, p + 1 + n, seq!['}']) {
                PRes::Parsed(n + 2, SType::RecordType(fs))
            } else {
                PRes::Error
            },
            r => pfail(r),
        }
    } else {
        PRes::Error
    }
}

// ty -> type-id | { type-fields } | array of type-id
pub open spec fn spec_type(s: Seq<char>, p: nat) -> PRes<SType> {
    let r1 = spec_name_type(s, p);
    if !(r1 is Error) {
        r1
    } else {
        let r2 = spec_record_type(s, p);
        if !(r2 is Error) {
            r2
        } else {
            spec_array_type(s, p)
        }
    }
}

/// A type name.
pub fn parse_type_id<'a>(i: LSpan<'a>) -> (r: IResult<'a, String>)
    ensures
        conforms(r, i, spec_identifier(i.text(), i.pos()), |w: String| w@),
{
    identifier(i)
}

/// A type given by its name.
pub fn parse_name_type<'a>(i: LSpan<'a>) -> (r: IResult<'a, TType>)
    ensures
        conforms(r, i, spec_name_type(i.text(), i.pos()), |t: TType| t@),
{
    let (i, id) = identifier(i)?;
    Ok((i, TType::NameType(id)))
}

/// One `id : type-id` field.
pub fn parse_type_field<'a>(i: LSpan<'a>) -> (r: IResult<'a, TField>)
    ensures
        conforms(r, i, spec_type_field(i.text(), i.pos()), |f: TField| f@),
{
    let (i1, name) = identifier(i)?;
    let i1 = space0(i1);
    if !tag1(&i1, ':') {
        return Err(ParseErr::Error);
    }
    let i2 = space0(i1.advance(1));
    let (i3, ty) = identifier(i2)?;
    Ok((i3, TField { name, ty, pos: Span::default() }))
}

/// A comma.
pub fn tag_comma<'a>(i: LSpan<'a>) -> (r: IResult<'a, ()>)
    ensures
        conforms(r, i, spec_comma(i.text(), i.pos()), |u: ()| u),
{
    if !tag1(&i, ',') {
        return Err(ParseErr::Error);
    }
    Ok((i.advance(1), ()))
}

/// Fields separated by commas; possibly none.
pub fn parse_type_fields<'a>(i: LSpan<'a>) -> (r: IResult<'a, Vec<TField>>)
    ensures
        conforms(r, i, spec_type_fields(i.text(), i.pos()), |v: Vec<TField>| fields_view(v@)),
{
    proof {
        lemma_separated_list0_no_abort(comma_spec(), type_field_spec(), i.text(), i.pos());
    }
    let r = parse_separated_list0::<(), TField, SField, _, _>(
        tag_comma,
        parse_type_field,
        i,
        Ghost(comma_spec()),
        Ghost(type_field_spec()),
        Ghost(field_view_fn()),
    );
    proof {
        if let Ok((_, v)) = &r {
            assert(v@.map_values(field_view_fn()) =~= fields_view(v@));
        }
    }
    r
}

/// `array of type-id`.
pub fn parse_array_type<'a>(i: LSpan<'a>) -> (r: IResult<'a, TType>)
    ensures
        conforms(r, i, spec_array_type(i.text(), i.pos()), |t: TType| t@),
{
    if !tag5(&i, 'a', 'r', 'r', 'a', 'y') {
        return Err(ParseErr::Error);
    }
    let i1 = space0(i.advance(5));
    if !tag2(&i1, 'o', 'f') {
        return Err(ParseErr::Error);
    }
    let (i3, _) = space1(i1.advance(2))?;
    let (i4, id) = identifier(i3)?;
    Ok((i4, TType::ArrayType(id)))
}

/// `{ type-fields }`.
pub fn parse_record_type<'a>(i: LSpan<'a>) -> (r: IResult<'a, TType>)
    ensures
        conforms(r, i, spec_record_type(i.text(), i.pos()), |t: TType| t@),
{
    if !tag1(&i, '{') {
        return Err(ParseErr::Error);
    }
    let (i1, fields) = parse_type_fields(i.advance(1))?;
    if !tag1(&i1, '}') {
        return Err(ParseErr::Error);
    }
    Ok((i1.advance(1), TType::RecordType(fields)))
}

/// A type: a name, a record of fields or an array.
pub fn parse_type<'a>(i: LSpan<'a>) -> (r: IResult<'a, TType>)
    ensures
        conforms(r, i, spec_type(i.text(), i.pos()), |t: TType| t@),
{
    match parse_name_type(i) {
        Err(ParseErr::Error) => {},
        r => return r,
    }
    match parse_record_type(i) {
        Err(ParseErr::Error) => {},
        r => return r,
    }
    parse_array_type(i)
}

/// A record type holds, as its fields, the whole list of fields read
/// between its braces.
pub proof fn law_record_type_fields(s: Seq<char>, p: nat)
    ensures
        spec_record_type(s, p) matches PRes::Parsed(n, SType::RecordType(fields)) ==> {
            &&& spec_tag(s, p, seq!['{'])
            &&& spec_type_fields(s, p + 1) matches PRes::Parsed(m, fs)
            &&& fs == fields
            &&& n == m + 2
            &&& spec_tag(s, p + 1 + m, seq!['}'])
        },
{
}

/// An array type holds the type name read after `array`, `of` and white
/// space.
pub proof fn law_array_type_item(s: Seq<char>, p: nat)
    ensures
        spec_array_type(s, p) matches PRes::Parsed(_, SType::ArrayType(item)) ==> {
            let q1 = skip_ws(s, p + 5);
            &&& spec_tag(s, p, seq!['a', 'r', 'r', 'a', 'y'])
            &&& spec_tag(s, q1, seq!['o', 'f'])
            &&& skip_ws(s, q1 + 2) > q1 + 2
            &&& spec_identifier(s, skip_ws(s, q1 + 2)) matches PRes::Parsed(_, w)
            &&& w == item
        },
{
}

/// A field holds the name read first and the type name read after the
/// colon.
pub proof fn law_type_field_parts(s: Seq<char>, p: nat)
    ensures
        spec_type_field(s, p) matches PRes::Parsed(_, f) ==> {
            &&& spec_identifier(s, p) matches PRes::Parsed(n1, name)
            &&& f.name == name
            &&& spec_tag(s, skip_ws(s, p + n1), seq![':'])
            &&& spec_identifier(s, skip_ws(s, skip_ws(s, p + n1) + 1)) matches PRes::Parsed(_, ty)
            &&& f.ty == ty
        },
{
}

} // verus!
