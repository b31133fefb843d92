use vstd::prelude::*;
use vstd::string::StringSliceAdditionalSpecFns;
use crate::parser::common::{IResult, PRes, conforms};

verus! {

/// Names in the syntax tree.
pub type TSymbol = String;

// ---------------------------------------------------------------------------
// Source positions
// ---------------------------------------------------------------------------

/// A source position: the byte offset from the start of the text and the
/// 1-based line number.
#[derive(Debug, PartialEq, Eq, Clone, Copy)]
pub struct Span {
    pub offset: usize,
    pub line: u32,
}

impl Default for Span {
    fn default() -> (r: Span)
        ensures
            r == spec_span_default(),
    {
        Span { offset: 0, line: 0 }
    }
}

/// The value of `Span::default()`.
pub open spec fn spec_span_default() -> Span {
    Span { offset: 0, line: 0 }
}

/// The number of UTF-8 bytes that encode `c`.
pub open spec fn char_width(c: char) -> nat {
    if (c as u32) < 0x80 {
        1
    } else if (c as u32) < 0x800 {
        2
    } else if (c as u32) < 0x10000 {
        3
    } else {
        4
    }
}

/// The number of UTF-8 bytes that encode the characters `cs`.
pub open spec fn byte_len(cs: Seq<char>) -> nat
    decreases cs.len(),
{
    if cs.len() == 0 {
        0
    } else {
        byte_len(cs.drop_last()) + char_width(cs.last())
    }
}

/// The number of line feeds in `cs`.
pub open spec fn newline_count(cs: Seq<char>) -> nat
    decreases cs.len(),
{
    if cs.len() == 0 {
        0
    } else {
        newline_count(cs.drop_last()) + if cs.last() == '\n' {
            1nat
        } else {
            0nat
        }
    }
}

/// A text whose byte offsets fit in `usize` and whose line numbers fit in `u32`.
pub open spec fn text_fits(cs: Seq<char>) -> bool {
    &&& byte_len(cs) <= usize::MAX
    &&& newline_count(cs) < u32::MAX
}

/// The position reached after reading the first `p` characters of `s`:
/// the bytes they take and the line the reader is on.
#[verifier::opaque]
pub open spec fn span_at(s: Seq<char>, p: nat) -> Span {
    Span {
        offset: byte_len(s.take(p as int)) as usize,
        line: (1 + newline_count(s.take(p as int))) as u32,
    }
}

pub proof fn lemma_byte_len_prefix_mono(s: Seq<char>, a: nat, b: nat)
    requires
        a <= b <= s.len(),
    ensures
        byte_len(s.take(a as int)) <= byte_len(s.take(b as int)),
        newline_count(s.take(a as int)) <= newline_count(s.take(b as int)),
    decreases b - a,
{
    if a < b {
        lemma_byte_len_prefix_mono(s, a, (b - 1) as nat);
        assert(s.take(b as int).drop_last() =~= s.take(b - 1));
    }
}

/// `byte_len` agrees with the length of vstd's UTF-8 encoding.
pub proof fn lemma_byte_len_is_utf8_len(cs: Seq<char>)
    ensures
        byte_len(cs) == vstd::utf8::encode_utf8(cs).len(),
    decreases cs.len(),
{
    if cs.len() > 0 {
        lemma_byte_len_is_utf8_len(cs.drop_last());
        lemma_encode_utf8_push(cs.drop_last(), cs.last());
        assert(cs.drop_last().push(cs.last()) =~= cs);
    }
}

proof fn lemma_encode_utf8_push(cs: Seq<char>, c: char)
    ensures
        vstd::utf8::encode_utf8(cs.push(c)).len() == vstd::utf8::encode_utf8(cs).len()
            + char_width(c),
    decreases cs.len(),
{
    broadcast use vstd::utf8::char_is_scalar;

    if cs.len() == 0 {
        assert(cs.push(c).drop_first() =~= Seq::<char>::empty());
        assert(vstd::utf8::encode_utf8(Seq::<char>::empty()) =~= Seq::<u8>::empty());
    } else {
        lemma_encode_utf8_push(cs.drop_first(), c);
        assert(cs.push(c).drop_first() =~= cs.drop_first().push(c));
    }
}

// ---------------------------------------------------------------------------
// The syntax tree
// ---------------------------------------------------------------------------

#[derive(Debug, PartialEq)]
pub enum TVar {
    SimpleVar(TSymbol, Span),
    FieldVar(Box<TVar>, TSymbol, Span),
    SubscriptVar(Box<TVar>, Box<TExpr>, Span),
}

#[derive(Debug, PartialEq, Eq, Structural, Clone, Copy)]
pub enum UnaryOpCode {
    Neg,
    And,
    Or,
}

#[derive(Debug, PartialEq, Eq, Structural, Clone, Copy)]
pub enum BinaryOpCode {
    Plus,
    Minus,
    Times,
    Divide,
    Eq,
    Neq,
    Lt,
    Le,
    Gt,
    Ge,
}

#[derive(Debug, PartialEq)]
pub struct TFor {
    pub var: TSymbol,
    pub low: Box<TExpr>,
    pub high: Box<TExpr>,
    pub body: Box<TExpr>,
    pub escape: bool,
    pub pos: Span,
}

#[derive(Debug, PartialEq)]
pub struct TField {
    pub name: TSymbol,
    pub ty: TSymbol,
    pub pos: Span,
}

#[derive(Debug, PartialEq)]
pub struct TNameType {
    pub name: TSymbol,
    pub ty: TType,
}

#[derive(Debug, PartialEq)]
pub struct TVarDec {
    pub name: TSymbol,
    pub ty: TSymbol,
    pub init: Box<TExpr>,
    pub escape: bool,
    pub pos: Span,
}

#[derive(Debug, PartialEq)]
pub struct TFunDec {
    pub name: TSymbol,
    pub params: Vec<TField>,
    pub body: Box<TExpr>,
    pub pos: Span,
}

#[derive(Debug, PartialEq)]
pub enum TDec {
    VarDec(TVarDec),
    FunDec(TFunDec),
    TypeDec(Vec<TNameType>),
}

#[derive(Debug, PartialEq)]
pub enum TType {
    NameType(TSymbol),
    RecordType(Vec<TField>),
    ArrayType(TSymbol),
}

#[derive(Debug, PartialEq)]
pub enum TExpr {
    Var(TVar),
    Int(i64),
    String(String, Span),
    Call { fun: TSymbol, args: Vec<Box<TExpr>>, pos: Span },
    BinaryOp { op_type: BinaryOpCode, left: Box<TExpr>, right: Box<TExpr>, pos: Span },
    UnaryOp { op_type: UnaryOpCode, value: Box<TExpr>, pos: Span },
    Record { r_type: TSymbol, fields: Vec<TField>, pos: Span },
    Sequence(Vec<(Box<TExpr>, Span)>),
    Assign { var: TVar, expr: Box<TExpr>, pos: Span },
    If { cond: Box<TExpr>, if_expr: Box<TExpr>, else_expr: Box<TExpr>, pos: Span },
    While { cond: Box<TExpr>, body: Box<TExpr>, pos: Span },
    For(TFor),
    Let { decs: Vec<TDec>, body: Box<TExpr>, pos: Span },
    Array { item_type: TSymbol, size: Box<TExpr>, init: Box<TExpr>, pos: Span },
    Nil,
}

#[derive(Debug)]
pub struct TModule {
    pub decs: Vec<TDec>,
    pub exprs: Vec<Box<TExpr>>,
}

pub enum TSourceBlock {
    Dec(TDec),
    Expr(Box<TExpr>),
    Comment(String),
}

// ---------------------------------------------------------------------------
// The mathematical syntax tree: names as character sequences, lists as `Seq`
// ---------------------------------------------------------------------------

pub enum SVar {
    SimpleVar(Seq<char>, Span),
    FieldVar(Box<SVar>, Seq<char>, Span),
    SubscriptVar(Box<SVar>, Box<SExpr>, Span),
}

pub struct SField {
    pub name: Seq<char>,
    pub ty: Seq<char>,
    pub pos: Span,
}

pub enum SType {
    NameType(Seq<char>),
    RecordType(Seq<SField>),
    ArrayType(Seq<char>),
}

pub struct SNameType {
    pub name: Seq<char>,
    pub ty: SType,
}

pub enum SDec {
    VarDec { name: Seq<char>, ty: Seq<char>, init: Box<SExpr>, escape: bool, pos: Span },
    FunDec { name: Seq<char>, params: Seq<SField>, body: Box<SExpr>, pos: Span },
    TypeDec(Seq<SNameType>),
}

pub enum SExpr {
    Var(SVar),
    Int(i64),
    String(Seq<char>, Span),
    Call { fun: Seq<char>, args: Seq<SExpr>, pos: Span },
    BinaryOp { op_type: BinaryOpCode, left: Box<SExpr>, right: Box<SExpr>, pos: Span },
    UnaryOp { op_type: UnaryOpCode, value: Box<SExpr>, pos: Span },
    Record { r_type: Seq<char>, fields: Seq<SField>, pos: Span },
    Sequence(Seq<(SExpr, Span)>),
    Assign { var: SVar, expr: Box<SExpr>, pos: Span },
    If { cond: Box<SExpr>, if_expr: Box<SExpr>, else_expr: Box<SExpr>, pos: Span },
    While { cond: Box<SExpr>, body: Box<SExpr>, pos: Span },
    For { var: Seq<char>, low: Box<SExpr>, high: Box<SExpr>, body: Box<SExpr>, escape: bool, pos: Span },
    Let { decs: Seq<SDec>, body: Box<SExpr>, pos: Span },
    Array { item_type: Seq<char>, size: Box<SExpr>, init: Box<SExpr>, pos: Span },
    Nil,
}

pub struct SModule {
    pub decs: Seq<SDec>,
    pub exprs: Seq<SExpr>,
}

pub enum SBlock {
    Dec(SDec),
    Expr(SExpr),
    Comment(Seq<char>),
}

pub open spec fn field_view(f: TField) -> SField {
    SField { name: f.name@, ty: f.ty@, pos: f.pos }
}

pub open spec fn fields_view(fs: Seq<TField>) -> Seq<SField> {
    fs.map_values(|f: TField| field_view(f))
}

pub open spec fn type_view(t: TType) -> SType {
    match t {
        TType::NameType(n) => SType::NameType(n@),
        TType::RecordType(fs) => SType::RecordType(fields_view(fs@)),
        TType::ArrayType(n) => SType::ArrayType(n@),
    }
}

pub open spec fn name_types_view(ts: Seq<TNameType>) -> Seq<SNameType> {
    ts.map_values(|t: TNameType| SNameType { name: t.name@, ty: type_view(t.ty) })
}

pub open spec fn var_view(v: TVar) -> SVar
    decreases v,
{
    match v {
        TVar::SimpleVar(n, p) => SVar::SimpleVar(n@, p),
        TVar::FieldVar(b, n, p) => SVar::FieldVar(Box::new(var_view(*b)), n@, p),
        TVar::SubscriptVar(b, e, p) => SVar::SubscriptVar(
            Box::new(var_view(*b)),
            Box::new(expr_view(*e)),
            p,
        ),
    }
}

pub open spec fn expr_view(e: TExpr) -> SExpr
    decreases e,
{
    match e {
        TExpr::Var(v) => SExpr::Var(var_view(v)),
        TExpr::Int(i) => SExpr::Int(i),
        TExpr::String(s, p) => SExpr::String(s@, p),
        TExpr::Call { fun, args, pos } => SExpr::Call { fun: fun@, args: exprs_view(args@), pos },
        TExpr::BinaryOp { op_type, left, right, pos } => SExpr::BinaryOp {
            op_type,
            left: Box::new(expr_view(*left)),
            right: Box::new(expr_view(*right)),
            pos,
        },
        TExpr::UnaryOp { op_type, value, pos } => SExpr::UnaryOp {
            op_type,
            value: Box::new(expr_view(*value)),
            pos,
        },
        TExpr::Record { r_type, fields, pos } => SExpr::Record {
            r_type: r_type@,
            fields: fields_view(fields@),
            pos,
        },
        TExpr::Sequence(items) => SExpr::Sequence(items_view(items@)),
        TExpr::Assign { var, expr, pos } => SExpr::Assign {
            var: var_view(var),
            expr: Box::new(expr_view(*expr)),
            pos,
        },
        TExpr::If { cond, if_expr, else_expr, pos } => SExpr::If {
            cond: Box::new(expr_view(*cond)),
            if_expr: Box::new(expr_view(*if_expr)),
            else_expr: Box::new(expr_view(*else_expr)),
            pos,
        },
        TExpr::While { cond, body, pos } => SExpr::While {
            cond: Box::new(expr_view(*cond)),
            body: Box::new(expr_view(*body)),
            pos,
        },
        TExpr::For(f) => SExpr::For {
            var: f.var@,
            low: Box::new(expr_view(*f.low)),
            high: Box::new(expr_view(*f.high)),
            body: Box::new(expr_view(*f.body)),
            escape: f.escape,
            pos: f.pos,
        },
        TExpr::Let { decs, body, pos } => SExpr::Let {
            decs: decs_view(decs@),
            body: Box::new(expr_view(*body)),
            pos,
        },
        TExpr::Array { item_type, size, init, pos } => SExpr::Array {
            item_type: item_type@,
            size: Box::new(expr_view(*size)),
            init: Box::new(expr_view(*init)),
            pos,
        },
        TExpr::Nil => SExpr::Nil,
    }
}

pub open spec fn exprs_view(es: Seq<Box<TExpr>>) -> Seq<SExpr>
    decreases es,
{
    if es.len() == 0 {
        Seq::empty()
    } else {
        exprs_view(es.drop_last()).push(expr_view(*es.last()))
    }
}

pub open spec fn items_view(es: Seq<(Box<TExpr>, Span)>) -> Seq<(SExpr, Span)>
    decreases es,
{
    if es.len() == 0 {
        Seq::empty()
    } else {
        items_view(es.drop_last()).push((expr_view(*es.last().0), es.last().1))
    }
}

pub open spec fn dec_view(d: TDec) -> SDec
    decreases d,
{
    match d {
        TDec::VarDec(v) => SDec::VarDec {
            name: v.name@,
            ty: v.ty@,
            init: Box::new(expr_view(*v.init)),
            escape: v.escape,
            pos: v.pos,
        },
        TDec::FunDec(f) => SDec::FunDec {
            name: f.name@,
            params: fields_view(f.params@),
            body: Box::new(expr_view(*f.body)),
            pos: f.pos,
        },
        TDec::TypeDec(ts) => SDec::TypeDec(name_types_view(ts@)),
    }
}

pub open spec fn decs_view(ds: Seq<TDec>) -> Seq<SDec>
    decreases ds,
{
    if ds.len() == 0 {
        Seq::empty()
    } else {
        decs_view(ds.drop_last()).push(dec_view(ds.last()))
    }
}

pub open spec fn block_view(b: TSourceBlock) -> SBlock {
    match b {
        TSourceBlock::Dec(d) => SBlock::Dec(dec_view(d)),
        TSourceBlock::Expr(e) => SBlock::Expr(expr_view(*e)),
        TSourceBlock::Comment(c) => SBlock::Comment(c@),
    }
}

pub open spec fn module_view(m: TModule) -> SModule {
    SModule { decs: decs_view(m.decs@), exprs: exprs_view(m.exprs@) }
}

impl View for TExpr {
    type V = SExpr;

    open spec fn view(&self) -> SExpr {
        expr_view(*self)
    }
}

impl View for TVar {
    type V = SVar;

    open spec fn view(&self) -> SVar {
        var_view(*self)
    }
}

impl View for TDec {
    type V = SDec;

    open spec fn view(&self) -> SDec {
        dec_view(*self)
    }
}

impl View for TType {
    type V = SType;

    open spec fn view(&self) -> SType {
        type_view(*self)
    }
}

impl View for TField {
    type V = SField;

    open spec fn view(&self) -> SField {
        field_view(*self)
    }
}

impl View for TModule {
    type V = SModule;

    open spec fn view(&self) -> SModule {
        module_view(*self)
    }
}

impl View for TSourceBlock {
    type V = SBlock;

    open spec fn view(&self) -> SBlock {
        block_view(*self)
    }
}

/// `exprs_view` of a sequence with one more element.
pub proof fn lemma_exprs_view_push(es: Seq<Box<TExpr>>, e: Box<TExpr>)
    ensures
        exprs_view(es.push(e)) == exprs_view(es).push(expr_view(*e)),
{
    assert(es.push(e).drop_last() =~= es);
}

/// `decs_view` of a sequence with one more element.
pub proof fn lemma_decs_view_push(ds: Seq<TDec>, d: TDec)
    ensures
        decs_view(ds.push(d)) == decs_view(ds).push(dec_view(d)),
{
    assert(ds.push(d).drop_last() =~= ds);
}

/// `items_view` of a sequence with one more element.
pub proof fn lemma_items_view_push(es: Seq<(Box<TExpr>, Span)>, e: (Box<TExpr>, Span))
    ensures
        items_view(es.push(e)) == items_view(es).push((expr_view(*e.0), e.1)),
{
    assert(es.push(e).drop_last() =~= es);
}

/// The elements of `exprs_view` are the views of the elements.
pub proof fn lemma_exprs_view_index(es: Seq<Box<TExpr>>)
    ensures
        exprs_view(es).len() == es.len(),
        forall|k: int| 0 <= k < es.len() ==> #[trigger] exprs_view(es)[k] == expr_view(*es[k]),
    decreases es.len(),
{
    if es.len() > 0 {
        lemma_exprs_view_index(es.drop_last());
    }
}

// ---------------------------------------------------------------------------
// Small constructors and accessors
// ---------------------------------------------------------------------------

/// A variable expression named `i`, at the default position.
pub fn make_simple_var_expr(i: &str) -> (r: Box<TExpr>)
    ensures
        r@ == SExpr::Var(SVar::SimpleVar(i@, spec_span_default())),
{
    let name = i.to_owned();
    assert(name@ == i@);
    let sp = Span::default();
    let v = TVar::SimpleVar(name, sp);
    assert(var_view(v) == SVar::SimpleVar(i@, spec_span_default()));
    let e = TExpr::Var(v);
    assert(expr_view(e) == SExpr::Var(var_view(v)));
    assert(e@ == SExpr::Var(SVar::SimpleVar(i@, spec_span_default())));
    Box::new(e)
}

/// The name of a simple-variable expression; for anything else, a message
/// that says what was expected.
pub open spec fn simple_var_name(e: SExpr) -> Seq<char> {
    match e {
        SExpr::Var(SVar::SimpleVar(name, _)) => name,
        SExpr::Var(_) => "error:should be simple var"@,
        _ => "error:should be var"@,
    }
}

/// The name of a simple-variable expression; for anything else, a message
/// that says what was expected.
pub fn get_simple_var_name(v: &TExpr) -> (r: TSymbol)
    ensures
        r@ == simple_var_name(v@),
{
    match v {
        TExpr::Var(var) => {
            assert(v@ == SExpr::Var(var_view(*var)));
            match var {
                TVar::SimpleVar(name, _) => name.clone(),
                _ => "error:should be simple var".to_owned(),
            }
        },
        _ => "error:should be var".to_owned(),
    }
}

/// The value of an integer literal expression.
pub fn get_int(v: &TExpr) -> (r: i64)
    requires
        v@ is Int,
    ensures
        v@ == SExpr::Int(r),
{
    match v {
        TExpr::Int(i) => *i,
        _ => 0,
    }
}

/// The name of the variable expression that `make_simple_var_expr` builds
/// is the name it was given.
pub proof fn law_simple_var_name_of_made_var(name: Seq<char>)
    ensures
        simple_var_name(SExpr::Var(SVar::SimpleVar(name, spec_span_default()))) == name,
{
}

/// The offset of a position counts the bytes of the UTF-8 encoding of the
/// text before it, and its line is one more than the line feeds before it.
pub proof fn law_span_counts_bytes_and_lines(s: Seq<char>, p: nat)
    requires
        text_fits(s),
        p <= s.len(),
    ensures
        span_at(s, p).offset == vstd::utf8::encode_utf8(s.take(p as int)).len(),
        span_at(s, p).line == 1 + newline_count(s.take(p as int)),
{
    reveal(span_at);
    lemma_byte_len_prefix_mono(s, p, s.len());
    assert(s.take(s.len() as int) =~= s);
    lemma_byte_len_is_utf8_len(s.take(p as int));
}

// ---------------------------------------------------------------------------
// The located input
// ---------------------------------------------------------------------------

/// The parser input: a text of characters and a read position in it, with
/// the byte offset and line number of that position kept up to date.
#[derive(Clone, Copy)]
pub struct LSpan<'a> {
    text: &'a [char],
    pos: usize,
    offset: usize,
    line: u32,
}

impl<'a> LSpan<'a> {
    #[verifier::type_invariant]
    spec fn inv(self) -> bool {
        &&& self.pos <= self.text@.len()
        &&& text_fits(self.text@)
        &&& self.offset == byte_len(self.text@.take(self.pos as int))
        &&& self.line == 1 + newline_count(self.text@.take(self.pos as int))
    }

    /// The whole text.
    pub closed spec fn text(self) -> Seq<char> {
        self.text@
    }

    /// The read position (a count of characters).
    pub closed spec fn pos(self) -> nat {
        if self.pos <= self.text@.len() {
            self.pos as nat
        } else {
            self.text@.len()
        }
    }

    pub broadcast proof fn lemma_pos_bound(self)
        ensures
            #[trigger] self.pos() <= self.text().len(),
    {
    }

    /// A span at the start of `text`.
    pub fn new(text: &'a [char]) -> (r: Self)
        requires
            text_fits(text@),
        ensures
            r.text() == text@,
            r.pos() == 0,
    {
        assert(text@.take(0) =~= Seq::<char>::empty());
        LSpan { text, pos: 0, offset: 0, line: 1 }
    }

    /// The byte offset of the read position.
    pub fn location_offset(&self) -> (r: usize)
        ensures
            r == span_at(self.text(), self.pos()).offset,
    {
        proof {
            use_type_invariant(self);
            reveal(span_at);
        }
        self.offset
    }

    /// The line of the read position.
    pub fn location_line(&self) -> (r: u32)
        ensures
            r == span_at(self.text(), self.pos()).line,
    {
        proof {
            use_type_invariant(self);
            reveal(span_at);
        }
        self.line
    }

    /// The read position.
    pub fn index(&self) -> (r: usize)
        ensures
            r == self.pos(),
            r <= self.text().len(),
    {
        proof {
            use_type_invariant(self);
        }
        self.pos
    }

    /// The number of characters left to read.
    pub fn remaining(&self) -> (r: usize)
        ensures
            r == self.text().len() - self.pos(),
    {
        proof {
            use_type_invariant(self);
        }
        self.text.len() - self.pos
    }

    /// The character `k` places after the read position, if there is one.
    pub fn peek_at(&self, k: usize) -> (r: Option<char>)
        ensures
            self.pos() + k < self.text().len() ==> r == Some(self.text()[self.pos() + k]),
            self.pos() + k >= self.text().len() ==> r is None,
    {
        proof {
            use_type_invariant(self);
        }
        if k < self.text.len() - self.pos {
            Some(self.text[self.pos + k])
        } else {
            None
        }
    }

    /// The span `n` characters further on.
    pub fn advance(self, n: usize) -> (r: Self)
        requires
            self.pos() + n <= self.text().len(),
        ensures
            r.text() == self.text(),
            r.pos() == self.pos() + n,
    {
        proof {
            use_type_invariant(&self);
        }
        let mut k: usize = 0;
        let mut offset = self.offset;
        let mut line = self.line;
        let ghost s = self.text@;
        let len = self.text.len();
        while k < n
            invariant
                len == s.len(),
                self.pos + n <= s.len(),
                s == self.text@,
                text_fits(s),
                k <= n,
                offset == byte_len(s.take(self.pos + k)),
                line == 1 + newline_count(s.take(self.pos + k)),
            decreases n - k,
        {
            let c = self.text[self.pos + k];
            proof {
                lemma_byte_len_prefix_mono(s, (self.pos + k + 1) as nat, s.len());
                assert(s.take(self.pos + k + 1).drop_last() =~= s.take(self.pos + k));
                assert(s.take(s.len() as int) =~= s);
            }
            let u = #[verifier::truncate] (c as u32);
            let w: usize = if u < 0x80 {
                1
            } else if u < 0x800 {
                2
            } else if u < 0x10000 {
                3
            } else {
                4
            };
            offset = offset + w;
            if c == '\n' {
                line = line + 1;
            }
            k = k + 1;
        }
        LSpan { text: self.text, pos: self.pos + n, offset, line }
    }

    /// The `n` characters after the read position, as a `String`.
    pub fn take_string(&self, n: usize) -> (r: String)
        requires
            self.pos() + n <= self.text().len(),
        ensures
            r@ == self.text().subrange(self.pos() as int, self.pos() + n),
    {
        proof {
            use_type_invariant(self);
        }
        let mut r = String::new();
        let mut k: usize = 0;
        let len = self.text.len();
        while k < n
            invariant
                len == self.text@.len(),
                self.pos + n <= self.text@.len(),
                k <= n,
                r@ == self.text@.subrange(self.pos as int, self.pos + k),
            decreases n - k,
        {
            push_char(&mut r, self.text[self.pos + k]);
            k = k + 1;
            assert(r@ =~= self.text@.subrange(self.pos as int, self.pos + k));
        }
        r
    }

    /// The characters not read yet, as a `String`.
    pub fn fragment(&self) -> (r: String)
        ensures
            r@ == self.text().subrange(self.pos() as int, self.text().len() as int),
    {
        let n = self.remaining();
        self.take_string(n)
    }
}

/// Appends `c` to `s` (std's `String::push`).
#[verifier::external_body]
fn push_char(s: &mut String, c: char)
    ensures
        final(s)@ == old(s)@.push(c),
{
    s.push(c);
}

/// The characters of `s`, in order.
pub fn source_chars(s: &str) -> (v: Vec<char>)
    ensures
        v@ == s@,
        byte_len(v@) <= usize::MAX,
{
    let mut v: Vec<char> = Vec::new();
    for c in it: s.chars()
        invariant
            v@ == it.seq().take(it.index() as int),
    {
        v.push(c);
    }
    let bytes = s.as_bytes();
    let nbytes = bytes.len();
    proof {
        lemma_byte_len_is_utf8_len(s@);
        assert(bytes@ == s.spec_bytes());
        assert(nbytes == bytes@.len());
        assert(s.spec_bytes() == vstd::utf8::encode_utf8(s@));
        assert(byte_len(s@) <= usize::MAX);
        assert(v@ == s@);
    }
    v
}

/// The position reached, without consuming anything.
pub fn get_position<'a>(i: LSpan<'a>) -> (r: IResult<'a, Span>)
    ensures
        conforms(r, i, PRes::Parsed(0, span_at(i.text(), i.pos())), |x: Span| x),
{
    Ok((i, Span::from_located_span(i)))
}

impl Span {
    /// The position that `span` has reached.
    pub fn from_located_span(span: LSpan) -> (r: Span)
        ensures
            r == span_at(span.text(), span.pos()),
    {
        Span { offset: span.location_offset(), line: span.location_line() }
    }
}

} // verus!
