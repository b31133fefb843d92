use vstd::prelude::*;
use crate::ir::expr::LSpan;

verus! {

broadcast use LSpan::lemma_pos_bound;

// ---------------------------------------------------------------------------
// Parse results
// ---------------------------------------------------------------------------

/// What a parser does on an input, as a mathematical value: it consumes a
/// number of characters and yields a value, or it fails in one of three ways.
/// `Error` lets an enclosing alternative try its next branch; `Incomplete`
/// stops the whole parse (more input was needed); `Abort` stands for the
/// inputs on which parsing cannot go on at all (an integer literal that does
/// not fit in `i64`).
pub enum PRes<T> {
    Parsed(nat, T),
    Error,
    Incomplete,
    Abort,
}

/// How a parser failed: `Error` is recoverable by an alternative,
/// `Incomplete` is not.
#[derive(Debug, PartialEq, Eq, Structural, Clone, Copy)]
pub enum ParseErr {
    Error,
    Incomplete,
}

/// The result of a parser: the rest of the input and the parsed value.
pub type IResult<'a, O> = Result<(LSpan<'a>, O), ParseErr>;

/// The failure of `r` as a failure of another result type.
pub open spec fn pfail<A, B>(r: PRes<A>) -> PRes<B> {
    match r {
        PRes::Incomplete => PRes::Incomplete,
        PRes::Abort => PRes::Abort,
        _ => PRes::Error,
    }
}

/// Prepends `x`, taken from `n` characters, to a list result.
pub open spec fn cons<T>(x: T, n: nat, r: PRes<Seq<T>>) -> PRes<Seq<T>> {
    match r {
        PRes::Parsed(m, xs) => PRes::Parsed(n + m, seq![x] + xs),
        _ => r,
    }
}

/// Adds `n` consumed characters in front of a result.
pub open spec fn after<T>(n: nat, r: PRes<T>) -> PRes<T> {
    match r {
        PRes::Parsed(m, x) => PRes::Parsed(n + m, x),
        _ => r,
    }
}

/// The list `xs`, taken from `k` characters, in front of a list result.
pub open spec fn prefixed<T>(xs: Seq<T>, k: nat, r: PRes<Seq<T>>) -> PRes<Seq<T>> {
    match r {
        PRes::Parsed(m, ys) => PRes::Parsed(k + m, xs + ys),
        _ => r,
    }
}

pub proof fn lemma_prefixed_cons<T>(xs: Seq<T>, k: nat, x: T, m: nat, r: PRes<Seq<T>>)
    ensures
        prefixed(xs, k, cons(x, m, r)) == prefixed(xs.push(x), k + m, r),
{
    match r {
        PRes::Parsed(mm, ys) => {
            assert(xs + (seq![x] + ys) =~= xs.push(x) + ys);
        },
        _ => {},
    }
}

pub proof fn lemma_prefixed_empty<T>(r: PRes<Seq<T>>)
    ensures
        prefixed(Seq::<T>::empty(), 0, r) == r,
{
    match r {
        PRes::Parsed(mm, ys) => {
            assert(Seq::<T>::empty() + ys =~= ys);
        },
        _ => {},
    }
}

pub proof fn lemma_prefixed_done<T>(xs: Seq<T>, k: nat)
    ensures
        prefixed(xs, k, PRes::Parsed(0, Seq::<T>::empty())) == PRes::Parsed(k, xs),
{
    assert(xs + Seq::<T>::empty() =~= xs);
}

/// The executable result `r` of parsing from `i` is what `sp` describes,
/// with the values related by `view`.
pub open spec fn conforms<'a, O, V>(
    r: IResult<'a, O>,
    i: LSpan<'a>,
    sp: PRes<V>,
    view: spec_fn(O) -> V,
) -> bool {
    match sp {
        PRes::Parsed(n, v) => match r {
            Ok((rest, o)) => rest.text() == i.text() && rest.pos() == i.pos() + n && view(o)
                == v,
            Err(_) => false,
        },
        PRes::Error => r matches Err(ParseErr::Error),
        PRes::Incomplete => r matches Err(ParseErr::Incomplete),
        PRes::Abort => false,
    }
}

/// The characters left from position `p`.
pub open spec fn rem(s: Seq<char>, p: nat) -> nat {
    if p <= s.len() {
        (s.len() - p) as nat
    } else {
        0
    }
}

// ---------------------------------------------------------------------------
// Characters and tokens
// ---------------------------------------------------------------------------

pub open spec fn is_ws(c: char) -> bool {
    c == ' ' || c == '\t' || c == '\r' || c == '\n'
}

pub open spec fn is_alpha(c: char) -> bool {
    ('a' <= c && c <= 'z') || ('A' <= c && c <= 'Z')
}

pub open spec fn is_digit(c: char) -> bool {
    '0' <= c && c <= '9'
}

pub open spec fn is_ident_char(c: char) -> bool {
    is_alpha(c) || is_digit(c) || c == '_'
}

/// The length of the run of white space (space, tab, CR, LF) at `p`.
pub open spec fn ws_len(s: Seq<char>, p: nat) -> nat
    decreases s.len() - p,
{
    if p < s.len() && is_ws(s[p as int]) {
        1 + ws_len(s, p + 1)
    } else {
        0
    }
}

/// The position after the white space at `p`.
pub open spec fn skip_ws(s: Seq<char>, p: nat) -> nat {
    p + ws_len(s, p)
}

/// `s` holds `t` at position `p`.
pub open spec fn spec_tag(s: Seq<char>, p: nat, t: Seq<char>) -> bool {
    p + t.len() <= s.len() && chars_match(s, p, t)
}

/// The characters of `s` from `p` on begin with `t`.
#[verifier::opaque]
pub open spec fn chars_match(s: Seq<char>, p: nat, t: Seq<char>) -> bool {
    s.subrange(p as int, (p + t.len()) as int) == t
}

/// At least one white-space character (the complete variant).
pub open spec fn spec_multispace1(s: Seq<char>, p: nat) -> PRes<()> {
    if ws_len(s, p) > 0 {
        PRes::Parsed(ws_len(s, p), ())
    } else {
        PRes::Error
    }
}

/// At least one white-space character, followed by something (the streaming
/// variant: white space up to the end of the text asks for more input).
pub open spec fn spec_multispace1_streaming(s: Seq<char>, p: nat) -> PRes<()> {
    if p + ws_len(s, p) >= s.len() {
        PRes::Incomplete
    } else if ws_len(s, p) == 0 {
        PRes::Error
    } else {
        PRes::Parsed(ws_len(s, p), ())
    }
}

/// The length of the run of identifier characters at `p`.
pub open spec fn ident_tail_len(s: Seq<char>, p: nat) -> nat
    decreases s.len() - p,
{
    if p < s.len() && is_ident_char(s[p as int]) {
        1 + ident_tail_len(s, p + 1)
    } else {
        0
    }
}

/// The length of the identifier-shaped word at `p`: a letter or `_`, then
/// letters, digits and `_`; 0 if there is none.
pub open spec fn ident_len(s: Seq<char>, p: nat) -> nat {
    if p < s.len() && (is_alpha(s[p as int]) || s[p as int] == '_') {
        1 + ident_tail_len(s, p + 1)
    } else {
        0
    }
}

/// The words that cannot be identifiers.
#[verifier::opaque]
pub open spec fn is_keyword(w: Seq<char>) -> bool {
    ||| w == seq!['v', 'a', 'r']
    ||| w == seq!['f', 'u', 'n', 'c', 't', 'i', 'o', 'n']
    ||| w == seq!['a', 'r', 'r', 'a', 'y']
    ||| w == seq!['l', 'e', 't']
    ||| w == seq!['i', 'n']
    ||| w == seq!['e', 'n', 'd']
    ||| w == seq!['n', 'i', 'l']
}

/// An identifier: the longest identifier-shaped word at `p`, unless it is a
/// keyword.
pub open spec fn spec_identifier(s: Seq<char>, p: nat) -> PRes<Seq<char>> {
    let n = ident_len(s, p);
    if n == 0 {
        PRes::Error
    } else if is_keyword(s.subrange(p as int, (p + n) as int)) {
        PRes::Error
    } else {
        PRes::Parsed(n, s.subrange(p as int, (p + n) as int))
    }
}

pub proof fn lemma_ws_len_bound(s: Seq<char>, p: nat)
    ensures
        p <= s.len() ==> p + ws_len(s, p) <= s.len(),
        forall|k: int| p <= k < p + ws_len(s, p) ==> is_ws(#[trigger] s[k]),
    decreases s.len() - p,
{
    if p < s.len() && is_ws(s[p as int]) {
        lemma_ws_len_bound(s, p + 1);
    }
}

pub proof fn lemma_ident_tail_len_bound(s: Seq<char>, p: nat)
    ensures
        p <= s.len() ==> p + ident_tail_len(s, p) <= s.len(),
    decreases s.len() - p,
{
    if p < s.len() && is_ident_char(s[p as int]) {
        lemma_ident_tail_len_bound(s, p + 1);
    }
}

// ---------------------------------------------------------------------------
// Executable token readers
// ---------------------------------------------------------------------------

fn is_ws_char(c: char) -> (r: bool)
    ensures
        r == is_ws(c),
{
    c == ' ' || c == '\t' || c == '\r' || c == '\n'
}

fn is_alpha_char(c: char) -> (r: bool)
    ensures
        r == is_alpha(c),
{
    ('a' <= c && c <= 'z') || ('A' <= c && c <= 'Z')
}

fn is_digit_char(c: char) -> (r: bool)
    ensures
        r == is_digit(c),
{
    '0' <= c && c <= '9'
}

/// The number of white-space characters at the read position.
pub fn ws_count(i: &LSpan) -> (r: usize)
    ensures
        r == ws_len(i.text(), i.pos()),
        i.pos() + r <= i.text().len(),
{
    let ghost s = i.text();
    let ghost p = i.pos();
    let mut k: usize = 0;
    proof {
        lemma_ws_len_bound(s, p);
    }
    while k < i.remaining()
        invariant
            p + k <= s.len(),
            s == i.text(),
            p == i.pos(),
            ws_len(s, p) == k + ws_len(s, (p + k) as nat),
        decreases s.len() - p - k,
    {
        match i.peek_at(k) {
            Some(c) => {
                if !is_ws_char(c) {
                    return k;
                }
            },
            None => {
                return k;
            },
        }
        k = k + 1;
    }
    k
}

/// `multispace0`: skips white space.
pub fn space0<'a>(i: LSpan<'a>) -> (r: LSpan<'a>)
    ensures
        r.text() == i.text(),
        r.pos() == skip_ws(i.text(), i.pos()),
{
    let n = ws_count(&i);
    i.advance(n)
}

/// `multispace1`, complete: one or more white-space characters.
pub fn space1<'a>(i: LSpan<'a>) -> (r: IResult<'a, ()>)
    ensures
        conforms(r, i, spec_multispace1(i.text(), i.pos()), |u: ()| u),
{
    let n = ws_count(&i);
    if n == 0 {
        Err(ParseErr::Error)
    } else {
        Ok((i.advance(n), ()))
    }
}

/// `multispace1`, streaming: one or more white-space characters followed by
/// something else.
pub fn space1_streaming<'a>(i: LSpan<'a>) -> (r: IResult<'a, ()>)
    ensures
        conforms(r, i, spec_multispace1_streaming(i.text(), i.pos()), |u: ()| u),
{
    let n = ws_count(&i);
    if n >= i.remaining() {
        Err(ParseErr::Incomplete)
    } else if n == 0 {
        Err(ParseErr::Error)
    } else {
        Ok((i.advance(n), ()))
    }
}

/// Whether the text holds `t` at the read position.
fn tag_chars(i: &LSpan, t: &[char]) -> (r: bool)
    ensures
        r == spec_tag(i.text(), i.pos(), t@),
{
    let ghost s = i.text();
    let ghost p = i.pos();
    reveal(chars_match);
    let n = t.len();
    if n > i.remaining() {
        return false;
    }
    let mut k: usize = 0;
    while k < n
        invariant
            n == t@.len(),
            p + n <= s.len(),
            s == i.text(),
            p == i.pos(),
            k <= n,
            forall|j: int| 0 <= j < k ==> s[p + j] == t@[j],
        decreases n - k,
    {
        match i.peek_at(k) {
            Some(c) => {
                if c != t[k] {
                    assert(s.subrange(p as int, p + n)[k as int] != t@[k as int]);
                    proof {
                        reveal(chars_match);
                    }
                    return false;
                }
            },
            None => {
                return false;
            },
        }
        k = k + 1;
    }
    assert(s.subrange(p as int, p + n) =~= t@);
    true
}

pub fn tag1(i: &LSpan, a: char) -> (r: bool)
    ensures
        r == spec_tag(i.text(), i.pos(), seq![a]),
{
    let t = [a];
    assert(t@ =~= seq![a]);
    tag_chars(i, &t)
}

pub fn tag2(i: &LSpan, a: char, b: char) -> (r: bool)
    ensures
        r == spec_tag(i.text(), i.pos(), seq![a, b]),
{
    let t = [a, b];
    assert(t@ =~= seq![a, b]);
    tag_chars(i, &t)
}

pub fn tag3(i: &LSpan, a: char, b: char, c: char) -> (r: bool)
    ensures
        r == spec_tag(i.text(), i.pos(), seq![a, b, c]),
{
    let t = [a, b, c];
    assert(t@ =~= seq![a, b, c]);
    tag_chars(i, &t)
}

pub fn tag4(i: &LSpan, a: char, b: char, c: char, d: char) -> (r: bool)
    ensures
        r == spec_tag(i.text(), i.pos(), seq![a, b, c, d]),
{
    let t = [a, b, c, d];
    assert(t@ =~= seq![a, b, c, d]);
    tag_chars(i, &t)
}

pub fn tag5(i: &LSpan, a: char, b: char, c: char, d: char, e: char) -> (r: bool)
    ensures
        r == spec_tag(i.text(), i.pos(), seq![a, b, c, d, e]),
{
    let t = [a, b, c, d, e];
    assert(t@ =~= seq![a, b, c, d, e]);
    tag_chars(i, &t)
}

/// Whether the text holds `function` at the read position.
pub fn tag_function(i: &LSpan) -> (r: bool)
    ensures
        r == spec_tag(i.text(), i.pos(), seq!['f', 'u', 'n', 'c', 't', 'i', 'o', 'n']),
{
    let t = ['f', 'u', 'n', 'c', 't', 'i', 'o', 'n'];
    assert(t@ =~= seq!['f', 'u', 'n', 'c', 't', 'i', 'o', 'n']);
    tag_chars(i, &t)
}

/// The length of the identifier-shaped word at the read position.
fn ident_count(i: &LSpan) -> (r: usize)
    ensures
        r == ident_len(i.text(), i.pos()),
        i.pos() + r <= i.text().len(),
{
    let ghost s = i.text();
    let ghost p = i.pos();
    match i.peek_at(0) {
        None => {
            return 0;
        },
        Some(c) => {
            if !(is_alpha_char(c) || c == '_') {
                return 0;
            }
        },
    }
    let mut k: usize = 1;
    proof {
        lemma_ident_tail_len_bound(s, p + 1);
    }
    while k < i.remaining()
        invariant
            1 <= k,
            p + k <= s.len(),
            s == i.text(),
            p == i.pos(),
            ident_len(s, p) == k + ident_tail_len(s, (p + k) as nat),
        decreases s.len() - p - k,
    {
        match i.peek_at(k) {
            Some(c) => {
                if !(is_alpha_char(c) || is_digit_char(c) || c == '_') {
                    return k;
                }
            },
            None => {
                return k;
            },
        }
        k = k + 1;
    }
    k
}

/// Whether the `n` characters at the read position spell a keyword.
fn keyword_at(i: &LSpan, n: usize) -> (r: bool)
    requires
        i.pos() + n <= i.text().len(),
    ensures
        r == is_keyword(i.text().subrange(i.pos() as int, i.pos() + n)),
{
    let ghost w = i.text().subrange(i.pos() as int, i.pos() + n);
    reveal(is_keyword);
    reveal(chars_match);
    let r = (n == 3 && tag3(i, 'v', 'a', 'r')) || (n == 8 && tag_function(i)) || (n == 5 && tag5(
        i,
        'a',
        'r',
        'r',
        'a',
        'y',
    )) || (n == 3 && tag3(i, 'l', 'e', 't')) || (n == 2 && tag2(i, 'i', 'n')) || (n == 3 && tag3(
        i,
        'e',
        'n',
        'd',
    )) || (n == 3 && tag3(i, 'n', 'i', 'l'));
    assert(w.len() == n);
    r
}

/// An identifier: the longest identifier-shaped word at the read position,
/// unless it is a keyword.
pub fn identifier<'a>(i: LSpan<'a>) -> (r: IResult<'a, String>)
    ensures
        conforms(r, i, spec_identifier(i.text(), i.pos()), |w: String| w@),
{
    let n = ident_count(&i);
    if n == 0 {
        return Err(ParseErr::Error);
    }
    if keyword_at(&i, n) {
        return Err(ParseErr::Error);
    }
    let w = i.take_string(n);
    Ok((i.advance(n), w))
}

/// Runs `inner` after the white space at the read position.
pub fn preceded_space0<'a, O, F: Fn(LSpan<'a>) -> IResult<'a, O>>(inner: F, i: LSpan<'a>) -> (r:
    IResult<'a, O>)
    requires
        forall|j: LSpan<'a>|
            j.text() == i.text() && j.pos() == skip_ws(i.text(), i.pos()) ==> #[trigger] call_requires(
                inner,
                (j,),
            ),
    ensures
        exists|j: LSpan<'a>|
            j.text() == i.text() && j.pos() == skip_ws(i.text(), i.pos()) && #[trigger] call_ensures(
                inner,
                (j,),
                r,
            ),
{
    let j = space0(i);
    inner(j)
}

/// Runs `inner` after the white space at the read position, and skips the
/// white space after what it parsed.
pub fn delimited_space0<'a, O, F: Fn(LSpan<'a>) -> IResult<'a, O>>(inner: F, i: LSpan<'a>) -> (r:
    IResult<'a, O>)
    requires
        forall|j: LSpan<'a>|
            j.text() == i.text() && j.pos() == skip_ws(i.text(), i.pos()) ==> #[trigger] call_requires(
                inner,
                (j,),
            ),
    ensures
        match r {
            Ok((rest, o)) => exists|j: LSpan<'a>, k: LSpan<'a>|
                j.text() == i.text() && j.pos() == skip_ws(i.text(), i.pos()) && #[trigger] call_ensures(
                    inner,
                    (j,),
                    Ok((k, o)),
                ) && rest.text() == k.text() && rest.pos() == skip_ws(k.text(), k.pos()),
            Err(e) => exists|j: LSpan<'a>|
                j.text() == i.text() && j.pos() == skip_ws(i.text(), i.pos()) && #[trigger] call_ensures(
                    inner,
                    (j,),
                    Err(e),
                ),
        },
{
    let j = space0(i);
    let res = inner(j);
    let ghost g = res;
    match res {
        Ok((k, o)) => {
            let rest = space0(k);
            assert(g == Ok::<(LSpan<'a>, O), ParseErr>((k, o)));
            assert(call_ensures(inner, (j,), Ok::<(LSpan<'a>, O), ParseErr>((k, o))));
            let r = Ok((rest, o));
            assert(r matches Ok((rest2, o2)) && o2 == o && rest2 == rest);
            r
        },
        Err(e) => Err(e),
    }
}


// ---------------------------------------------------------------------------
// Separated lists
// ---------------------------------------------------------------------------

// inner, with white space on both sides
pub open spec fn spec_spaced<V>(inner: spec_fn(Seq<char>, nat) -> PRes<V>, s: Seq<char>, p: nat) -> PRes<
    V,
> {
    let q = skip_ws(s, p);
    match inner(s, q) {
        PRes::Parsed(n, v) => PRes::Parsed((skip_ws(s, q + n) - p) as nat, v),
        r => r,
    }
}

// [ item { sep item } ], each item with white space on both sides
pub open spec fn spec_separated_list0<V>(
    sep: spec_fn(Seq<char>, nat) -> PRes<()>,
    inner: spec_fn(Seq<char>, nat) -> PRes<V>,
    s: Seq<char>,
    p: nat,
) -> PRes<Seq<V>> {
    match spec_spaced(inner, s, p) {
        PRes::Parsed(n, v) => cons(v, n, spec_separated_rest(sep, inner, s, p + n)),
        PRes::Error => PRes::Parsed(0, Seq::empty()),
        r => pfail(r),
    }
}

// { sep item }: a separator that consumes nothing is an error
pub open spec fn spec_separated_rest<V>(
    sep: spec_fn(Seq<char>, nat) -> PRes<()>,
    inner: spec_fn(Seq<char>, nat) -> PRes<V>,
    s: Seq<char>,
    p: nat,
) -> PRes<Seq<V>>
    decreases rem(s, p),
{
    match sep(s, p) {
        PRes::Parsed(n, _) => if n == 0 {
            PRes::Error
        } else {
            match spec_spaced(inner, s, p + n) {
                PRes::Parsed(m, v) => if p + n + m <= s.len() {
                    cons(v, n + m, spec_separated_rest(sep, inner, s, p + n + m))
                } else {
                    PRes::Error
                },
                PRes::Error => PRes::Parsed(0, Seq::empty()),
                r => pfail(r),
            }
        },
        PRes::Error => PRes::Parsed(0, Seq::empty()),
        r => pfail(r),
    }
}

/// A separated list starts with the item read at its start, is empty only
/// where no item starts there, and ends with an item that ends where the
/// list ends: no item read is left out at either end.
pub proof fn law_separated_list0_ends<V>(
    sep: spec_fn(Seq<char>, nat) -> PRes<()>,
    inner: spec_fn(Seq<char>, nat) -> PRes<V>,
    s: Seq<char>,
    p: nat,
)
    ensures
        spec_separated_list0(sep, inner, s, p) matches PRes::Parsed(n, es) ==> {
            &&& es.len() == 0 <==> spec_spaced(inner, s, p) is Error
            &&& es.len() > 0 ==> (spec_spaced(inner, s, p) matches PRes::Parsed(_, e) && e == es[0])
            &&& es.len() > 0 ==> exists|q: nat|
                p <= q <= p + n && #[trigger] spec_spaced(inner, s, q) == PRes::Parsed(
                    (p + n - q) as nat,
                    es.last(),
                )
        },
{
    if let PRes::Parsed(n0, e) = spec_spaced(inner, s, p) {
        lemma_separated_rest_last(sep, inner, s, p + n0);
        if let PRes::Parsed(k, rest) = spec_separated_rest(sep, inner, s, p + n0) {
            if rest.len() == 0 {
                assert((seq![e] + rest).last() == e);
                assert(spec_spaced(inner, s, p) == PRes::Parsed((p + (n0 + k) - p) as nat, e));
            } else {
                assert((seq![e] + rest).last() == rest.last());
            }
        }
    }
}

proof fn lemma_separated_rest_last<V>(
    sep: spec_fn(Seq<char>, nat) -> PRes<()>,
    inner: spec_fn(Seq<char>, nat) -> PRes<V>,
    s: Seq<char>,
    p: nat,
)
    ensures
        spec_separated_rest(sep, inner, s, p) matches PRes::Parsed(n, es) ==> {
            &&& es.len() == 0 ==> n == 0
            &&& es.len() > 0 ==> exists|q: nat|
                p < q <= p + n && #[trigger] spec_spaced(inner, s, q) == PRes::Parsed(
                    (p + n - q) as nat,
                    es.last(),
                )
        },
    decreases rem(s, p),
{
    if let PRes::Parsed(n1, _) = sep(s, p) {
        if n1 > 0 {
            if let PRes::Parsed(m, e) = spec_spaced(inner, s, p + n1) {
                if p + n1 + m <= s.len() {
                    lemma_separated_rest_last(sep, inner, s, p + n1 + m);
                    if let PRes::Parsed(k, rest) = spec_separated_rest(sep, inner, s, p + n1 + m) {
                        if rest.len() == 0 {
                            assert((seq![e] + rest).last() == e);
                            assert(spec_spaced(inner, s, p + n1) == PRes::Parsed(
                                (p + (n1 + m + k) - (p + n1)) as nat,
                                e,
                            ));
                        } else {
                            assert((seq![e] + rest).last() == rest.last());
                        }
                    }
                }
            }
        }
    }
}

/// A separated list cannot abort where neither of its parsers can.
pub proof fn lemma_separated_list0_no_abort<V>(
    sep: spec_fn(Seq<char>, nat) -> PRes<()>,
    inner: spec_fn(Seq<char>, nat) -> PRes<V>,
    s: Seq<char>,
    p: nat,
)
    requires
        forall|q: nat| !(#[trigger] sep(s, q) is Abort),
        forall|q: nat| !(#[trigger] inner(s, q) is Abort),
    ensures
        !(spec_separated_list0(sep, inner, s, p) is Abort),
{
    assert(!(inner(s, skip_ws(s, p)) is Abort));
    if let PRes::Parsed(n, _) = spec_spaced(inner, s, p) {
        lemma_separated_rest_no_abort(sep, inner, s, p + n);
    }
}

proof fn lemma_separated_rest_no_abort<V>(
    sep: spec_fn(Seq<char>, nat) -> PRes<()>,
    inner: spec_fn(Seq<char>, nat) -> PRes<V>,
    s: Seq<char>,
    p: nat,
)
    requires
        forall|q: nat| !(#[trigger] sep(s, q) is Abort),
        forall|q: nat| !(#[trigger] inner(s, q) is Abort),
    ensures
        !(spec_separated_rest(sep, inner, s, p) is Abort),
    decreases rem(s, p),
{
    assert(!(sep(s, p) is Abort));
    if let PRes::Parsed(n, _) = sep(s, p) {
        if n > 0 {
            assert(!(inner(s, skip_ws(s, p + n)) is Abort));
            if let PRes::Parsed(m, _) = spec_spaced(inner, s, p + n) {
                if p + n + m <= s.len() {
                    lemma_separated_rest_no_abort(sep, inner, s, p + n + m);
                }
            }
        }
    }
}

/// `separated_list0(sep, delimited_space0(inner))`: items with white space
/// around each, separated by `sep`, possibly none. `sep` and `inner` behave
/// as `sep_spec` and `inner_spec` describe; the list is what
/// `spec_separated_list0` describes.
pub fn parse_separated_list0<'a, O1, O2, V, G, F>(
    sep: G,
    inner: F,
    i: LSpan<'a>,
    Ghost(sep_spec): Ghost<spec_fn(Seq<char>, nat) -> PRes<()>>,
    Ghost(inner_spec): Ghost<spec_fn(Seq<char>, nat) -> PRes<V>>,
    Ghost(view): Ghost<spec_fn(O2) -> V>,
) -> (r: IResult<'a, Vec<O2>>) where
    G: Fn(LSpan<'a>) -> IResult<'a, O1>,
    F: Fn(LSpan<'a>) -> IResult<'a, O2>,

    requires
        forall|j: LSpan<'a>| j.text() == i.text() ==> #[trigger] call_requires(sep, (j,)),
        forall|j: LSpan<'a>|
            j.text() == i.text() && !(inner_spec(j.text(), j.pos()) is Abort)
                ==> #[trigger] call_requires(inner, (j,)),
        forall|j: LSpan<'a>, r: IResult<'a, O1>|
            j.text() == i.text() && #[trigger] call_ensures(sep, (j,), r) ==> conforms(
                r,
                j,
                sep_spec(j.text(), j.pos()),
                |o: O1| (),
            ),
        forall|j: LSpan<'a>, r: IResult<'a, O2>|
            j.text() == i.text() && #[trigger] call_ensures(inner, (j,), r) ==> conforms(
                r,
                j,
                inner_spec(j.text(), j.pos()),
                view,
            ),
        !(spec_separated_list0(sep_spec, inner_spec, i.text(), i.pos()) is Abort),
    ensures
        conforms(
            r,
            i,
            spec_separated_list0(sep_spec, inner_spec, i.text(), i.pos()),
            |v: Vec<O2>| v@.map_values(view),
        ),
{
    let ghost s = i.text();
    let ghost p0 = i.pos();
    let mut v: Vec<O2> = Vec::new();
    let q = space0(i);
    let ghost first = inner_spec(s, q.pos());
    proof {
        if first is Abort {
            assert(spec_spaced(inner_spec, s, p0) is Abort);
        }
    }
    let mut cur = match inner(q) {
        Ok((k, o)) => {
            let rest = space0(k);
            v.push(o);
            proof {
                assert(v@.map_values(view) =~= seq![view(o)]);
                assert(spec_spaced(inner_spec, s, p0) == PRes::Parsed(
                    (rest.pos() - p0) as nat,
                    view(o),
                ));
                lemma_prefixed_cons(Seq::<V>::empty(), 0, view(o), (rest.pos() - p0) as nat,
                    spec_separated_rest(sep_spec, inner_spec, s, rest.pos()));
                lemma_prefixed_empty(spec_separated_list0(sep_spec, inner_spec, s, p0));
                assert(Seq::<V>::empty().push(view(o)) =~= v@.map_values(view));
            }
            rest
        },
        Err(ParseErr::Error) => {
            assert(v@.map_values(view) =~= Seq::<V>::empty());
            return Ok((i, v));
        },
        Err(e) => {
            return Err(e);
        },
    };
    loop
        invariant
            i.text() == s,
            i.pos() == p0,
            cur.text() == s,
            p0 <= cur.pos(),
            forall|j: LSpan<'a>| j.text() == s ==> #[trigger] call_requires(sep, (j,)),
            forall|j: LSpan<'a>|
                j.text() == s && !(inner_spec(j.text(), j.pos()) is Abort)
                    ==> #[trigger] call_requires(inner, (j,)),
            forall|j: LSpan<'a>, r: IResult<'a, O1>|
                j.text() == s && #[trigger] call_ensures(sep, (j,), r) ==> conforms(
                    r,
                    j,
                    sep_spec(j.text(), j.pos()),
                    |o: O1| (),
                ),
            forall|j: LSpan<'a>, r: IResult<'a, O2>|
                j.text() == s && #[trigger] call_ensures(inner, (j,), r) ==> conforms(
                    r,
                    j,
                    inner_spec(j.text(), j.pos()),
                    view,
                ),
            spec_separated_list0(sep_spec, inner_spec, s, p0) == prefixed(
                v@.map_values(view),
                (cur.pos() - p0) as nat,
                spec_separated_rest(sep_spec, inner_spec, s, cur.pos()),
            ),
            !(spec_separated_list0(sep_spec, inner_spec, s, p0) is Abort),
        decreases rem(s, cur.pos()),
    {
        let ghost tail = spec_separated_rest(sep_spec, inner_spec, s, cur.pos());
        proof {
            lemma_prefixed_done(v@.map_values(view), (cur.pos() - p0) as nat);
        }
        let c1 = match sep(cur) {
            Ok((c1, _)) => c1,
            Err(ParseErr::Error) => {
                return Ok((cur, v));
            },
            Err(e) => {
                return Err(e);
            },
        };
        if c1.index() == cur.index() {
            return Err(ParseErr::Error);
        }
        let q = space0(c1);
        proof {
            if inner_spec(s, q.pos()) is Abort {
                assert(tail is Abort);
            }
        }
        match inner(q) {
            Ok((k, o)) => {
                let rest = space0(k);
                let ghost old_v = v@;
                let ghost n = (rest.pos() - cur.pos()) as nat;
                v.push(o);
                proof {
                    assert(tail == cons(view(o), n, spec_separated_rest(sep_spec, inner_spec, s, rest.pos())));
                    lemma_prefixed_cons(old_v.map_values(view), (cur.pos() - p0) as nat, view(o), n,
                        spec_separated_rest(sep_spec, inner_spec, s, rest.pos()));
                    assert(old_v.map_values(view).push(view(o)) =~= v@.map_values(view));
                }
                cur = rest;
            },
            Err(ParseErr::Error) => {
                return Ok((cur, v));
            },
            Err(e) => {
                return Err(e);
            },
        }
    }
}

// ---------------------------------------------------------------------------
// Laws
// ---------------------------------------------------------------------------

/// Skipping white space twice is skipping it once.
pub proof fn lemma_skip_ws_idempotent(s: Seq<char>, p: nat)
    ensures
        ws_len(s, skip_ws(s, p)) == 0,
    decreases s.len() - p,
{
    if p < s.len() && is_ws(s[p as int]) {
        lemma_skip_ws_idempotent(s, p + 1);
    }
}

proof fn lemma_ident_tail_maximal(s: Seq<char>, p: nat)
    ensures
        forall|k: int| p <= k < p + ident_tail_len(s, p) ==> is_ident_char(#[trigger] s[k]),
        p + ident_tail_len(s, p) < s.len() ==> !is_ident_char(s[(p + ident_tail_len(s, p)) as int]),
    decreases s.len() - p,
{
    if p < s.len() && is_ident_char(s[p as int]) {
        lemma_ident_tail_maximal(s, p + 1);
    }
}

/// An identifier is the whole identifier-shaped word at the read position:
/// it starts with a letter or `_`, holds only letters, digits and `_`, is
/// not followed by another such character, and is not a keyword.
pub proof fn law_identifier_is_maximal_word(s: Seq<char>, p: nat)
    ensures
        spec_identifier(s, p) matches PRes::Parsed(n, w) ==> {
            &&& w == s.subrange(p as int, (p + n) as int)
            &&& p + n <= s.len()
            &&& (is_alpha(w[0]) || w[0] == '_')
            &&& forall|k: int| 0 <= k < w.len() ==> is_ident_char(#[trigger] w[k])
            &&& p + n < s.len() ==> !is_ident_char(s[(p + n) as int])
            &&& !is_keyword(w)
        },
{
    if p < s.len() && (is_alpha(s[p as int]) || s[p as int] == '_') {
        lemma_ident_tail_maximal(s, p + 1);
        lemma_ident_tail_len_bound(s, p + 1);
        if let PRes::Parsed(n, w) = spec_identifier(s, p) {
            assert forall|k: int| 0 <= k < w.len() implies is_ident_char(#[trigger] w[k]) by {
                assert(w[k] == s[p + k]);
            }
        }
    }
}

} // verus!
