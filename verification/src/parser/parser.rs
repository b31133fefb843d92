use vstd::prelude::*;
use crate::ir::expr::{
    LSpan, SBlock, SDec, SExpr, SModule, TDec, TExpr, TModule, TSourceBlock, decs_view,
    exprs_view, lemma_decs_view_push, lemma_exprs_view_push, newline_count, source_chars,
    text_fits,
};
use crate::parser::common::{
    IResult, ParseErr, PRes, after, conforms, lemma_ws_len_bound, pfail, rem, skip_ws, space0, spec_tag, tag2,
};
use crate::parser::decs::{parse_block_dec, spec_dec};
use crate::parser::expr::{parse_block_expr, spec_block_expr};

verus! {

broadcast use LSpan::lemma_pos_bound;

/// The length of the run at `p` of characters other than `*` and `/`.
pub open spec fn comment_run(s: Seq<char>, p: nat) -> nat
    decreases s.len() - p,
{
    if p < s.len() && s[p as int] != '*' && s[p as int] != '/' {
        1 + comment_run(s, p + 1)
    } else {
        0
    }
}

// /* text */, after white space: the text has at least one character and
// holds neither `*` nor `/`
pub open spec fn spec_comment(s: Seq<char>, p: nat) -> PRes<SBlock> {
    let q0 = skip_ws(s, p);
    if spec_tag(s, q0, seq!['/', '*']) {
        let m = comment_run(s, q0 + 2);
        if m > 0 && spec_tag(s, q0 + 2 + m, seq!['*', '/']) {
            PRes::Parsed(
                (q0 + 4 + m - p) as nat,
                SBlock::Comment(s.subrange((q0 + 2) as int, (q0 + 2 + m) as int)),
            )
        } else {
            PRes::Error
        }
    } else {
        PRes::Error
    }
}

// a comment, a declaration or an expression
pub open spec fn spec_block(s: Seq<char>, p: nat) -> PRes<SBlock> {
    let r1 = spec_comment(s, p);
    if !(r1 is Error) {
        r1
    } else {
        let r2 = match spec_dec(s, p) {
            PRes::Parsed(n, d) => PRes::Parsed(n, SBlock::Dec(d)),
            r => pfail(r),
        };
        if !(r2 is Error) {
            r2
        } else {
            spec_block_expr(s, p)
        }
    }
}

/// The module part contributed by one block, in front of the rest.
pub open spec fn add_block(b: SBlock, rest: SModule) -> SModule {
    match b {
        SBlock::Dec(d) => SModule { decs: seq![d] + rest.decs, exprs: rest.exprs },
        SBlock::Expr(e) => SModule { decs: rest.decs, exprs: seq![e] + rest.exprs },
        SBlock::Comment(_) => rest,
    }
}

// { block }: the declarations and expressions of the blocks that follow,
// comments left out; a block that consumes nothing stops with an error
pub open spec fn spec_module(s: Seq<char>, p: nat) -> PRes<SModule>
    decreases rem(s, p),
{
    match spec_block(s, p) {
        PRes::Parsed(n, b) => if n == 0 || p + n > s.len() {
            PRes::Error
        } else {
            match spec_module(s, p + n) {
                PRes::Parsed(m, rest) => PRes::Parsed(n + m, add_block(b, rest)),
                r => r,
            }
        },
        PRes::Error => PRes::Parsed(0, SModule { decs: Seq::empty(), exprs: Seq::empty() }),
        r => pfail(r),
    }
}

/// The module parts `ds`, `es`, taken from `k` characters, in front of a
/// module result.
pub open spec fn module_prefixed(ds: Seq<SDec>, es: Seq<SExpr>, k: nat, r: PRes<SModule>) -> PRes<
    SModule,
> {
    match r {
        PRes::Parsed(m, rest) => PRes::Parsed(
            k + m,
            SModule { decs: ds + rest.decs, exprs: es + rest.exprs },
        ),
        _ => r,
    }
}

/// The message of `parse_source` for the failure `e`.
pub open spec fn source_error_message(e: ParseErr) -> Seq<char> {
    match e {
        ParseErr::Incomplete => "parse_source error:Incomplete(\n    Size(\n        1,\n    ),\n)"@,
        ParseErr::Error => "parse_source error:Error(\n    Many0,\n)"@,
    }
}

fn comment_count(i: &LSpan) -> (r: usize)
    ensures
        r == comment_run(i.text(), i.pos()),
        i.pos() + r <= i.text().len(),
{
    let ghost s = i.text();
    let ghost p = i.pos();
    let mut k: usize = 0;
    proof {
        lemma_comment_run_bound(s, p);
    }
    while k < i.remaining()
        invariant
            p + k <= s.len(),
            s == i.text(),
            p == i.pos(),
            comment_run(s, p) == k + comment_run(s, (p + k) as nat),
        decreases s.len() - p - k,
    {
        match i.peek_at(k) {
            Some(c) => {
                if c == '*' || c == '/' {
                    return k;
                }
            },
            None => {
                return k;
            },
        }
        k = k + 1;
    }
    k
}

proof fn lemma_comment_run_bound(s: Seq<char>, p: nat)
    ensures
        p <= s.len() ==> p + comment_run(s, p) <= s.len(),
    decreases s.len() - p,
{
    if p < s.len() {
        lemma_comment_run_bound(s, p + 1);
    }
}

/// `/* text */`, after white space.
pub fn parse_comment<'a>(i: LSpan<'a>) -> (r: IResult<'a, TSourceBlock>)
    ensures
        conforms(r, i, spec_comment(i.text(), i.pos()), |b: TSourceBlock| b@),
{
    let i0 = space0(i);
    if !tag2(&i0, '/', '*') {
        return Err(ParseErr::Error);
    }
    let i1 = i0.advance(2);
    let m = comment_count(&i1);
    if m == 0 {
        return Err(ParseErr::Error);
    }
    let comment = i1.take_string(m);
    let i2 = i1.advance(m);
    if !tag2(&i2, '*', '/') {
        return Err(ParseErr::Error);
    }
    Ok((i2.advance(2), TSourceBlock::Comment(comment)))
}

/// A comment, a declaration or an expression.
pub fn parse_block<'a>(i: LSpan<'a>) -> (r: IResult<'a, TSourceBlock>)
    requires
        !(spec_block(i.text(), i.pos()) is Abort),
    ensures
        conforms(r, i, spec_block(i.text(), i.pos()), |b: TSourceBlock| b@),
{
    match parse_comment(i) {
        Err(ParseErr::Error) => {},
        r => return r,
    }
    match parse_block_dec(i) {
        Err(ParseErr::Error) => {},
        r => return r,
    }
    parse_block_expr(i)
}

/// The blocks that follow, gathered into a module.
#[verifier::rlimit(100)]
#[verifier::spinoff_prover]
pub fn parse_module<'a>(i: LSpan<'a>) -> (r: IResult<'a, TModule>)
    requires
        !(spec_module(i.text(), i.pos()) is Abort),
    ensures
        conforms(r, i, spec_module(i.text(), i.pos()), |m: TModule| m@),
{
    let ghost s = i.text();
    let ghost p0 = i.pos();
    let mut decs: Vec<TDec> = Vec::new();
    let mut exprs: Vec<Box<TExpr>> = Vec::new();
    let mut cur = i;
    proof {
        assert(decs_view(decs@) =~= Seq::<SDec>::empty());
        assert(exprs_view(exprs@) =~= Seq::<SExpr>::empty());
        lemma_module_prefixed_empty(spec_module(s, p0));
    }
    loop
        invariant
            i.text() == s,
            i.pos() == p0,
            cur.text() == s,
            p0 <= cur.pos(),
            spec_module(s, p0) == module_prefixed(
                decs_view(decs@),
                exprs_view(exprs@),
                (cur.pos() - p0) as nat,
                spec_module(s, cur.pos()),
            ),
            !(spec_module(s, p0) is Abort),
        decreases rem(s, cur.pos()),
    {
        let ghost tail = spec_module(s, cur.pos());
        proof {
            if spec_block(s, cur.pos()) is Abort {
                assert(tail is Abort);
            }
        }
        match parse_block(cur) {
            Ok((rest, block)) => {
                if rest.index() == cur.index() {
                    return Err(ParseErr::Error);
                }
                let ghost old_d = decs@;
                let ghost old_e = exprs@;
                let ghost k = (cur.pos() - p0) as nat;
                let ghost n = (rest.pos() - cur.pos()) as nat;
                let ghost b = block@;
                proof {
                    lemma_module_prefixed_step(decs_view(old_d), exprs_view(old_e), k, n, b,
                        spec_module(s, rest.pos()));
                }
                match block {
                    TSourceBlock::Dec(d) => {
                        decs.push(d);
                        proof {
                            lemma_decs_view_push(old_d, d);
                            assert(old_d.push(d) =~= decs@);
                        }
                    },
                    TSourceBlock::Expr(e) => {
                        exprs.push(e);
                        proof {
                            lemma_exprs_view_push(old_e, e);
                            assert(old_e.push(e) =~= exprs@);
                        }
                    },
                    TSourceBlock::Comment(_) => {},
                }
                cur = rest;
            },
            Err(ParseErr::Error) => {
                proof {
                    assert(tail == PRes::Parsed(
                        0,
                        SModule { decs: Seq::empty(), exprs: Seq::empty() },
                    ));
                    assert(decs_view(decs@) + Seq::<SDec>::empty() =~= decs_view(decs@));
                    assert(exprs_view(exprs@) + Seq::<SExpr>::empty() =~= exprs_view(exprs@));
                }
                return Ok((cur, TModule { decs, exprs }));
            },
            Err(e) => {
                return Err(e);
            },
        }
    }
}

proof fn lemma_module_prefixed_empty(r: PRes<SModule>)
    ensures
        module_prefixed(Seq::empty(), Seq::empty(), 0, r) == r,
{
    match r {
        PRes::Parsed(m, rest) => {
            assert(Seq::<SDec>::empty() + rest.decs =~= rest.decs);
            assert(Seq::<SExpr>::empty() + rest.exprs =~= rest.exprs);
        },
        _ => {},
    }
}

proof fn lemma_module_prefixed_step(
    ds: Seq<SDec>,
    es: Seq<SExpr>,
    k: nat,
    n: nat,
    b: SBlock,
    r: PRes<SModule>,
)
    ensures
        module_prefixed(
            ds,
            es,
            k,
            match r {
                PRes::Parsed(m, rest) => PRes::Parsed(n + m, add_block(b, rest)),
                r => r,
            },
        ) == match b {
            SBlock::Dec(d) => module_prefixed(ds.push(d), es, k + n, r),
            SBlock::Expr(e) => module_prefixed(ds, es.push(e), k + n, r),
            SBlock::Comment(_) => module_prefixed(ds, es, k + n, r),
        },
{
    match r {
        PRes::Parsed(m, rest) => {
            match b {
                SBlock::Dec(d) => {
                    assert(ds + (seq![d] + rest.decs) =~= ds.push(d) + rest.decs);
                },
                SBlock::Expr(e) => {
                    assert(es + (seq![e] + rest.exprs) =~= es.push(e) + rest.exprs);
                },
                SBlock::Comment(_) => {},
            }
        },
        _ => {},
    }
}

/// Parses a whole source text into its declarations and expressions; what
/// follows the last block that parses is left unread.
pub fn parse_source(i: &str) -> (r: Result<TModule, String>)
    requires
        newline_count(i@) < u32::MAX,
        !(spec_module(i@, 0) is Abort),
    ensures
        match spec_module(i@, 0) {
            PRes::Parsed(_, m) => r matches Ok(module) && module@ == m,
            PRes::Error => r matches Err(msg) && msg@ == source_error_message(ParseErr::Error),
            PRes::Incomplete => r matches Err(msg) && msg@ == source_error_message(
                ParseErr::Incomplete,
            ),
            PRes::Abort => false,
        },
{
    let chars = source_chars(i);
    let span = LSpan::new(chars.as_slice());
    match parse_module(span) {
        Ok((_, module)) => Ok(module),
        Err(ParseErr::Error) => {
            let msg = "parse_source error:Error(\n    Many0,\n)".to_owned();
            Err(msg)
        },
        Err(ParseErr::Incomplete) => {
            let msg = "parse_source error:Incomplete(\n    Size(\n        1,\n    ),\n)".to_owned();
            Err(msg)
        },
    }
}


#[verifier::spinoff_prover]
#[verifier::rlimit(50)]
proof fn lemma_block_of_comment(s: Seq<char>, p: nat)
    ensures
        spec_comment(s, p) matches PRes::Parsed(n, _) ==> spec_block(s, p) == spec_comment(s, p)
            && 0 < n && p + n <= s.len(),
{
    let c = spec_comment(s, p);
    if c is Parsed {
        lemma_ws_len_bound(s, p);
        assert(!(c is Error));
        assert(spec_block(s, p) == c);
    }
}

/// A comment contributes nothing to the module: a module that starts with
/// a comment has the declarations and expressions of the text after it.
pub proof fn law_comment_contributes_nothing(s: Seq<char>, p: nat)
    ensures
        spec_comment(s, p) matches PRes::Parsed(n, _) ==> spec_module(s, p) == after(
            n,
            spec_module(s, p + n),
        ),
{
    lemma_block_of_comment(s, p);
    if let PRes::Parsed(n, b) = spec_comment(s, p) {
        let tail = spec_module(s, p + n);
        assert(spec_module(s, p) == match tail {
            PRes::Parsed(m, rest) => PRes::Parsed(n + m, add_block(b, rest)),
            r => r,
        });
    }
}

} // verus!
