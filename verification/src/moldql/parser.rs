//! Recursive-descent parser for MoldQL and its ExplorerQL extension.
//!
//! ```text
//!   query    ::= or_chain
//!   or_chain ::= and_chain (OR and_chain)*
//!   and_chain::= atom (AND atom)*
//!   atom     ::= '(' or_chain ')' | NOT atom | FIND ... | EXPLORE ...
//!              | PATH ... | NEIGHBORS ... | SUBGRAPH ... | CLUSTER ... | EXPLAIN ...
//! ```
//!
//! Precedence is `NOT > AND > OR`; parentheses override it. A bare
//! primitive is never wrapped in a boolean query.
//!
//! Each parsing step has a spec function `p_*` over the query text `s`
//! and a character index `i`, giving the parsed value and the index
//! after it, or the error. The executable step's contract is that it
//! returns exactly that and leaves the cursor at that index.

use vstd::prelude::*;
use crate::text::{
    eq_ignore_case, seq_upper, seq_lower, owned, concat, concat3, append, append_chars,
    chars_of, slice_chars, string_of, upper_vec, lower_vec, is_lit_ignore_case, decimal,
    u64_to_string,
};
use crate::number::{is_number_literal, number_text, number_u32, read_number};
use crate::moldql::ast::{
    Condition, ConditionV, Direction, ExploreQuery, ExploreV, Field, FindQuery, FindV, Op,
    TargetType, Value, ValueV, conditions_view, opt_view, PathQuery, PathV, NeighborsQuery,
    SubgraphQuery, RootedV, TraversalDirection, ClusterMethod, ClusterQuery, ClusterV,
    ExplainQuery, ExplainV, BooleanOp, BooleanQuery, MoldQLQuery, QueryV, query_view,
};
use crate::moldql::cursor::{
    Cursor, StopSet, scan_to, ws_end, keyword_span, peek_keyword_at, keyword_is, after_keyword,
    line_col, remaining_at, max_query_len, lemma_scan_to_bounds,
};

verus! {

/// Diagnostic for a malformed query; `line` and `column` are 1-based.
#[derive(Debug, Clone, PartialEq, Eq)]
pub struct ParseError {
    pub message: String,
    pub line: u32,
    pub column: u32,
}

pub struct ParseErrorV {
    pub message: Seq<char>,
    pub line: int,
    pub column: int,
}

impl View for ParseError {
    type V = ParseErrorV;

    open spec fn view(&self) -> ParseErrorV {
        ParseErrorV { message: self.message@, line: self.line as int, column: self.column as int }
    }
}

impl ParseError {
    /// The diagnostic as text: `<message> at line N, column M`.
    pub fn describe(&self) -> (r: String)
        ensures
            r@ == self.message@ + " at line "@ + decimal(self.line as nat) + ", column "@ + decimal(
                self.column as nat,
            ),
    {
        let mut r = owned(self.message.as_str());
        append(&mut r, " at line ");
        let l = u64_to_string(self.line as u64);
        append(&mut r, l.as_str());
        append(&mut r, ", column ");
        let c = u64_to_string(self.column as u64);
        append(&mut r, c.as_str());
        r
    }
}

/// The error `msg` raised at index `i` of `s`.
pub open spec fn err_at(s: Seq<char>, i: int, msg: Seq<char>) -> ParseErrorV {
    ParseErrorV { message: msg, line: line_col(s, i).0, column: line_col(s, i).1 }
}

/// `r` is the outcome `spec` describes, the cursor ending at `end`.
pub open spec fn step_ok<T: View>(
    r: Result<T, ParseError>,
    end: int,
    spec: Result<(T::V, int), ParseErrorV>,
) -> bool {
    match (r, spec) {
        (Ok(x), Ok((v, j))) => x@ == v && end == j,
        (Err(x), Err(e)) => x@ == e,
        _ => false,
    }
}

/// The cursor moved forward over the same text.
pub open spec fn moved(a: Cursor, b: Cursor) -> bool {
    &&& b.wf()
    &&& b.input@ == a.input@
    &&& a.pos <= b.pos
}

pub(crate) fn error_here(c: &Cursor, msg: String) -> (r: ParseError)
    requires
        c.wf(),
    ensures
        r@ == err_at(c.input@, c.pos as int, msg@),
{
    let (line, column) = c.position();
    ParseError { message: msg, line, column }
}

// ---------------------------------------------------------------------------
// Facts about scanning
// ---------------------------------------------------------------------------

pub proof fn lemma_ws_end(s: Seq<char>, i: int)
    requires
        0 <= i <= s.len(),
    ensures
        i <= ws_end(s, i) <= s.len(),
{
    lemma_scan_to_bounds(s, i, StopSet::NonSpace);
}

/// A present keyword token is not empty, so consuming it makes progress.
pub proof fn lemma_after_keyword(s: Seq<char>, i: int)
    requires
        0 <= i <= s.len(),
    ensures
        i <= keyword_span(s, i).0 <= keyword_span(s, i).1 <= after_keyword(s, i) <= s.len(),
        peek_keyword_at(s, i) is Some ==> i < after_keyword(s, i),
{
    let a = ws_end(s, i);
    lemma_ws_end(s, i);
    lemma_scan_to_bounds(s, a, StopSet::Keyword);
    lemma_ws_end(s, scan_to(s, a, StopSet::Keyword));
}

// ---------------------------------------------------------------------------
// Tokens
// ---------------------------------------------------------------------------

/// An identifier: characters up to whitespace, an operator or `.`.
pub open spec fn p_identifier(s: Seq<char>, i: int, what: Seq<char>) -> Result<
    (Seq<char>, int),
    ParseErrorV,
> {
    let j = scan_to(s, i, StopSet::Ident);
    if j == i {
        Err(err_at(s, i, "expected "@ + what))
    } else {
        Ok((s.subrange(i, j), j))
    }
}

fn parse_identifier(c: &mut Cursor, what: &str) -> (r: Result<String, ParseError>)
    requires
        old(c).wf(),
    ensures
        moved(*old(c), *final(c)),
        step_ok(r, final(c).pos as int, p_identifier(old(c).input@, old(c).pos as int, what@)),
        r is Ok ==> old(c).pos < final(c).pos,
{
    let start = c.pos;
    proof {
        lemma_scan_to_bounds(c.input@, start as int, StopSet::Ident);
    }
    c.scan(StopSet::Ident);
    if c.pos == start {
        let m = concat("expected ", what);
        return Err(error_here(c, m));
    }
    Ok(c.text_from(start))
}

/// The value of a bare word: a number when `f64` parsing accepts it,
/// else the word itself.
pub open spec fn word_value(raw: Seq<char>) -> ValueV {
    if is_number_literal(raw) {
        ValueV::Number(number_text(raw))
    } else {
        ValueV::Str(raw)
    }
}

/// The text a value stands for where a name is expected.
pub open spec fn value_text(v: ValueV) -> Seq<char> {
    match v {
        ValueV::Number(n) => n,
        ValueV::Str(t) => t,
    }
}

/// A bare word: characters up to whitespace or an operator.
pub open spec fn p_value_word(s: Seq<char>, i: int) -> Option<(ValueV, int)> {
    let j = scan_to(s, i, StopSet::Word);
    if j == i {
        None
    } else {
        Some((word_value(s.subrange(i, j)), j))
    }
}

/// Reads a bare word; returns its characters.
fn scan_word(c: &mut Cursor) -> (r: Option<Vec<char>>)
    requires
        old(c).wf(),
    ensures
        moved(*old(c), *final(c)),
        final(c).pos == scan_to(old(c).input@, old(c).pos as int, StopSet::Word),
        match r {
            Some(w) => old(c).pos < final(c).pos && w@ == old(c).input@.subrange(
                old(c).pos as int,
                final(c).pos as int,
            ),
            None => final(c).pos == old(c).pos,
        },
{
    let start = c.pos;
    proof {
        lemma_scan_to_bounds(c.input@, start as int, StopSet::Word);
    }
    c.scan(StopSet::Word);
    if c.pos == start {
        None
    } else {
        Some(slice_chars(&c.input, start, c.pos))
    }
}

/// The value of the bare word `raw`.
fn word_to_value(raw: &Vec<char>) -> (v: Value)
    requires
        raw.len() < 0x1_0000_0000,
    ensures
        v@ == word_value(raw@),
{
    match read_number(raw) {
        Some((text, _)) => Value::Number(string_of(&text)),
        None => Value::String(string_of(raw)),
    }
}

fn parse_value_word(c: &mut Cursor) -> (r: Option<Value>)
    requires
        old(c).wf(),
    ensures
        moved(*old(c), *final(c)),
        match p_value_word(old(c).input@, old(c).pos as int) {
            Some((v, j)) => r is Some && r->0@ == v && final(c).pos == j,
            None => r is None && final(c).pos == old(c).pos,
        },
{
    match scan_word(c) {
        Some(w) => Some(word_to_value(&w)),
        None => None,
    }
}

/// `value_text`, executable.
fn value_into_text(v: Value) -> (r: String)
    ensures
        r@ == value_text(v@),
{
    match v {
        Value::Number(n) => n,
        Value::String(t) => t,
    }
}

/// A quoted string, or a bare word. Gives the value (if any) and the
/// index the cursor stops at.
pub open spec fn p_value(s: Seq<char>, i: int) -> (Option<ValueV>, int) {
    if 0 <= i < s.len() && s[i] == '"' {
        let j = scan_to(s, i + 1, StopSet::Quote);
        if j < s.len() {
            (Some(ValueV::Str(s.subrange(i + 1, j))), j + 1)
        } else {
            (None, j)
        }
    } else {
        match p_value_word(s, i) {
            Some((v, j)) => (Some(v), j),
            None => (None, i),
        }
    }
}

fn parse_value(c: &mut Cursor) -> (r: Option<Value>)
    requires
        old(c).wf(),
    ensures
        moved(*old(c), *final(c)),
        final(c).pos == p_value(old(c).input@, old(c).pos as int).1,
        match p_value(old(c).input@, old(c).pos as int).0 {
            Some(v) => r is Some && r->0@ == v,
            None => r is None,
        },
{
    if c.peek_char() == Some('"') {
        c.advance();
        let start = c.pos;
        proof {
            lemma_scan_to_bounds(c.input@, start as int, StopSet::Quote);
        }
        c.scan(StopSet::Quote);
        if c.peek_char() != Some('"') {
            return None;
        }
        let t = c.text_from(start);
        c.advance();
        return Some(Value::String(t));
    }
    parse_value_word(c)
}

// ---------------------------------------------------------------------------
// Conditions
// ---------------------------------------------------------------------------

/// `name` or `name.sub`.
pub open spec fn p_field(s: Seq<char>, i: int) -> Result<(Seq<Seq<char>>, int), ParseErrorV> {
    match p_identifier(s, i, "field name"@) {
        Err(e) => Err(e),
        Ok((head, j)) => {
            let k = ws_end(s, j);
            if k < s.len() && s[k] == '.' {
                match p_identifier(s, ws_end(s, k + 1), "field sub-name after `.`"@) {
                    Err(e) => Err(e),
                    Ok((tail, n)) => Ok((seq![head, tail], n)),
                }
            } else {
                Ok((seq![head], k))
            }
        },
    }
}

fn parse_field(c: &mut Cursor) -> (r: Result<Field, ParseError>)
    requires
        old(c).wf(),
    ensures
        moved(*old(c), *final(c)),
        step_ok(r, final(c).pos as int, p_field(old(c).input@, old(c).pos as int)),
        r is Ok ==> old(c).pos < final(c).pos,
{
    let head = parse_identifier(c, "field name")?;
    proof {
        lemma_ws_end(c.input@, c.pos as int);
    }
    c.skip_ws();
    if c.peek_char() == Some('.') {
        c.advance();
        proof {
            lemma_ws_end(c.input@, c.pos as int);
        }
        c.skip_ws();
        let tail = parse_identifier(c, "field sub-name after `.`")?;
        Ok(Field::dotted(head.as_str(), tail.as_str()))
    } else {
        Ok(Field::single(head.as_str()))
    }
}

/// A comparison operator; `=` alone means equality.
pub open spec fn p_op(s: Seq<char>, i: int) -> Result<(Op, int), ParseErrorV> {
    if i < 0 || i >= s.len() {
        Err(err_at(s, i, "expected comparison operator"@))
    } else {
        let c0 = s[i];
        let eq_next = i + 1 < s.len() && s[i + 1] == '=';
        if c0 == '>' && eq_next {
            Ok((Op::Gte, i + 2))
        } else if c0 == '<' && eq_next {
            Ok((Op::Lte, i + 2))
        } else if c0 == '=' && eq_next {
            Ok((Op::Eq, i + 2))
        } else if c0 == '=' {
            Ok((Op::Eq, i + 1))
        } else if c0 == '!' && eq_next {
            Ok((Op::Neq, i + 2))
        } else if c0 == '>' {
            Ok((Op::Gt, i + 1))
        } else if c0 == '<' {
            Ok((Op::Lt, i + 1))
        } else if c0 == '~' {
            Ok((Op::Contains, i + 1))
        } else {
            Err(err_at(s, i, "expected one of `>`, `>=`, `<`, `<=`, `=`, `==`, `!=`, `~`"@))
        }
    }
}

fn parse_op(c: &mut Cursor) -> (r: Result<Op, ParseError>)
    requires
        old(c).wf(),
    ensures
        moved(*old(c), *final(c)),
        step_ok(r, final(c).pos as int, p_op(old(c).input@, old(c).pos as int)),
{
    let c0 = match c.peek_char() {
        Some(ch) => ch,
        None => {
            return Err(error_here(c, owned("expected comparison operator")));
        },
    };
    let eq_next = c.peek_char_at(1) == Some('=');
    if c0 == '>' && eq_next {
        c.advance_by(2);
        Ok(Op::Gte)
    } else if c0 == '<' && eq_next {
        c.advance_by(2);
        Ok(Op::Lte)
    } else if c0 == '=' && eq_next {
        c.advance_by(2);
        Ok(Op::Eq)
    } else if c0 == '=' {
        c.advance();
        Ok(Op::Eq)
    } else if c0 == '!' && eq_next {
        c.advance_by(2);
        Ok(Op::Neq)
    } else if c0 == '>' {
        c.advance();
        Ok(Op::Gt)
    } else if c0 == '<' {
        c.advance();
        Ok(Op::Lt)
    } else if c0 == '~' {
        c.advance();
        Ok(Op::Contains)
    } else {
        Err(
            error_here(
                c,
                owned("expected one of `>`, `>=`, `<`, `<=`, `=`, `==`, `!=`, `~`"),
            ),
        )
    }
}

/// `field op value`.
pub open spec fn p_condition(s: Seq<char>, i: int) -> Result<(ConditionV, int), ParseErrorV> {
    match p_field(s, i) {
        Err(e) => Err(e),
        Ok((f, j)) => match p_op(s, ws_end(s, j)) {
            Err(e) => Err(e),
            Ok((o, k)) => {
                let (v, m) = p_value(s, ws_end(s, k));
                match v {
                    None => Err(err_at(s, m, "expected value after operator"@)),
                    Some(v) => Ok((ConditionV { field: f, op: o, value: v }, m)),
                }
            },
        },
    }
}

fn parse_condition(c: &mut Cursor) -> (r: Result<Condition, ParseError>)
    requires
        old(c).wf(),
    ensures
        moved(*old(c), *final(c)),
        step_ok(r, final(c).pos as int, p_condition(old(c).input@, old(c).pos as int)),
        r is Ok ==> old(c).pos < final(c).pos,
{
    let field = parse_field(c)?;
    proof {
        lemma_ws_end(c.input@, c.pos as int);
    }
    c.skip_ws();
    let op = parse_op(c)?;
    proof {
        lemma_ws_end(c.input@, c.pos as int);
    }
    c.skip_ws();
    match parse_value(c) {
        Some(value) => Ok(Condition { field, op, value }),
        None => Err(error_here(c, owned("expected value after operator"))),
    }
}

/// The conditions after the first: `(AND condition)*`, from index `i`
/// (just after whitespace), appended to `acc`.
pub open spec fn p_where_rest(s: Seq<char>, i: int, acc: Seq<ConditionV>) -> Result<
    (Seq<ConditionV>, int),
    ParseErrorV,
>
    decreases s.len() - i,
{
    if i < 0 || i > s.len() || !keyword_is(s, i, "AND"@) {
        Ok((acc, i))
    } else {
        match p_condition(s, after_keyword(s, i)) {
            Err(e) => Err(e),
            Ok((c, j)) => if i < j <= s.len() {
                proof {
                    lemma_ws_end(s, j);
                }
                p_where_rest(s, ws_end(s, j), acc.push(c))
            } else {
                Ok((acc, i))
            },
        }
    }
}

/// `condition (AND condition)*`.
pub open spec fn p_where(s: Seq<char>, i: int) -> Result<(Seq<ConditionV>, int), ParseErrorV> {
    match p_condition(s, i) {
        Err(e) => Err(e),
        Ok((c, j)) => p_where_rest(s, ws_end(s, j), seq![c]),
    }
}

fn parse_where_clauses(c: &mut Cursor) -> (r: Result<Vec<Condition>, ParseError>)
    requires
        old(c).wf(),
    ensures
        moved(*old(c), *final(c)),
        match (r, p_where(old(c).input@, old(c).pos as int)) {
            (Ok(x), Ok((v, j))) => conditions_view(x) == v && final(c).pos == j,
            (Err(x), Err(e)) => x@ == e,
            _ => false,
        },
        r is Ok ==> old(c).pos < final(c).pos,
{
    let ghost s = c.input@;
    let first = parse_condition(c)?;
    let mut conds: Vec<Condition> = Vec::new();
    conds.push(first);
    proof {
        lemma_ws_end(s, c.pos as int);
        assert(conditions_view(conds) =~= seq![first@]);
    }
    c.skip_ws();
    loop
        invariant
            c.wf(),
            c.input@ == s,
            s == old(c).input@,
            old(c).pos < c.pos <= s.len(),
            p_where_rest(s, c.pos as int, conditions_view(conds)) == p_where(s, old(c).pos as int),
        ensures
            c.wf(),
            c.input@ == s,
            old(c).pos < c.pos <= s.len(),
            p_where(s, old(c).pos as int) == Ok::<(Seq<ConditionV>, int), ParseErrorV>(
                (conditions_view(conds), c.pos as int),
            ),
        decreases s.len() - c.pos,
    {
        if !c.keyword_is("AND") {
            break;
        }
        let ghost i = c.pos as int;
        proof {
            lemma_after_keyword(s, i);
        }
        c.skip_word();
        let cond = parse_condition(c)?;
        let ghost acc = conditions_view(conds);
        conds.push(cond);
        proof {
            assert(conditions_view(conds) =~= acc.push(cond@));
            lemma_ws_end(s, c.pos as int);
        }
        c.skip_ws();
    }
    Ok(conds)
}

// ---------------------------------------------------------------------------
// Shared clause pieces
// ---------------------------------------------------------------------------

/// A reference to an object: a bare word, as text.
pub open spec fn p_object_ref(s: Seq<char>, i: int, what: Seq<char>) -> Result<
    (Seq<char>, int),
    ParseErrorV,
> {
    match p_value_word(s, i) {
        None => Err(err_at(s, i, "expected "@ + what)),
        Some((v, j)) => Ok((value_text(v), j)),
    }
}

fn parse_object_ref(c: &mut Cursor, what: &str) -> (r: Result<String, ParseError>)
    requires
        old(c).wf(),
    ensures
        moved(*old(c), *final(c)),
        step_ok(r, final(c).pos as int, p_object_ref(old(c).input@, old(c).pos as int, what@)),
        r is Ok ==> old(c).pos < final(c).pos,
{
    match parse_value_word(c) {
        Some(v) => Ok(value_into_text(v)),
        None => Err(error_here(c, concat("expected ", what))),
    }
}

/// A whole number that fits the `u32` reading of an `f64` literal.
pub open spec fn p_u32(s: Seq<char>, i: int, what: Seq<char>) -> Result<(u32, int), ParseErrorV> {
    let j = scan_to(s, i, StopSet::Word);
    if j == i {
        Err(err_at(s, i, "expected "@ + what))
    } else {
        let raw = s.subrange(i, j);
        if !is_number_literal(raw) {
            Err(err_at(s, j, what + " must be a number, found `"@ + raw + "`"@))
        } else {
            match number_u32(raw) {
                Some(v) => Ok((v, j)),
                None => Err(err_at(s, j, what + " must be a non-negative integer"@)),
            }
        }
    }
}

fn parse_u32(c: &mut Cursor, what: &str) -> (r: Result<u32, ParseError>)
    requires
        old(c).wf(),
    ensures
        moved(*old(c), *final(c)),
        step_ok(r, final(c).pos as int, p_u32(old(c).input@, old(c).pos as int, what@)),
        r is Ok ==> old(c).pos < final(c).pos,
{
    let raw = match scan_word(c) {
        Some(w) => w,
        None => {
            return Err(error_here(c, concat("expected ", what)));
        },
    };
    match read_number(&raw) {
        None => {
            let mut m = concat(what, " must be a number, found `");
            append_chars(&mut m, &raw);
            append(&mut m, "`");
            Err(error_here(c, m))
        },
        Some((_, Some(v))) => Ok(v),
        Some((_, None)) => Err(error_here(c, concat(what, " must be a non-negative integer"))),
    }
}

/// The keyword at the cursor, upper-cased (for messages).
fn keyword_upper(c: &Cursor) -> (r: Vec<char>)
    requires
        c.wf(),
        peek_keyword_at(c.input@, c.pos as int) is Some,
    ensures
        r@ == seq_upper(peek_keyword_at(c.input@, c.pos as int)->0),
{
    match c.peek_keyword_chars() {
        Some(t) => upper_vec(&t),
        None => Vec::new(),
    }
}

// ---------------------------------------------------------------------------
// FIND
// ---------------------------------------------------------------------------

pub open spec fn p_target(s: Seq<char>, i: int) -> Result<(TargetType, int), ParseErrorV> {
    match p_identifier(s, i, "target type (symbols|files|scopes|issues)"@) {
        Err(e) => Err(e),
        Ok((raw, j)) => if eq_ignore_case(raw, "symbols"@) {
            Ok((TargetType::Symbols, j))
        } else if eq_ignore_case(raw, "files"@) {
            Ok((TargetType::Files, j))
        } else if eq_ignore_case(raw, "scopes"@) {
            Ok((TargetType::Scopes, j))
        } else if eq_ignore_case(raw, "issues"@) {
            Ok((TargetType::Issues, j))
        } else {
            Err(
                err_at(
                    s,
                    j,
                    "unknown target type `"@ + seq_lower(raw)
                        + "` — expected symbols, files, scopes, issues"@,
                ),
            )
        },
    }
}

fn parse_target(c: &mut Cursor) -> (r: Result<TargetType, ParseError>)
    requires
        old(c).wf(),
    ensures
        moved(*old(c), *final(c)),
        step_ok(r, final(c).pos as int, p_target(old(c).input@, old(c).pos as int)),
        r is Ok ==> old(c).pos < final(c).pos,
{
    let raw = parse_identifier(c, "target type (symbols|files|scopes|issues)")?;
    let w = chars_of(raw.as_str());
    if is_lit_ignore_case(&w, "symbols") {
        Ok(TargetType::Symbols)
    } else if is_lit_ignore_case(&w, "files") {
        Ok(TargetType::Files)
    } else if is_lit_ignore_case(&w, "scopes") {
        Ok(TargetType::Scopes)
    } else if is_lit_ignore_case(&w, "issues") {
        Ok(TargetType::Issues)
    } else {
        let low = lower_vec(&w);
        let m = concat3(
            "unknown target type `",
            &low,
            "` — expected symbols, files, scopes, issues",
        );
        Err(error_here(c, m))
    }
}

/// `IN SCOPE <path>`, from the `IN` keyword at `k`.
pub open spec fn p_scope(s: Seq<char>, k: int) -> Result<(Seq<char>, int), ParseErrorV> {
    let a = after_keyword(s, k);
    if !keyword_is(s, a, "SCOPE"@) {
        Err(err_at(s, a, "expected SCOPE after IN"@))
    } else {
        let b = after_keyword(s, a);
        match p_value_word(s, b) {
            None => Err(err_at(s, b, "expected scope path after `IN SCOPE`"@)),
            Some((v, j)) => Ok((value_text(v), j)),
        }
    }
}

fn parse_scope_clause(c: &mut Cursor) -> (r: Result<String, ParseError>)
    requires
        old(c).wf(),
    ensures
        moved(*old(c), *final(c)),
        step_ok(r, final(c).pos as int, p_scope(old(c).input@, old(c).pos as int)),
        r is Ok && peek_keyword_at(old(c).input@, old(c).pos as int) is Some ==> old(c).pos
            < final(c).pos,
{
    proof {
        lemma_after_keyword(c.input@, c.pos as int);
    }
    c.skip_word();
    if !c.keyword_is("SCOPE") {
        return Err(error_here(c, owned("expected SCOPE after IN")));
    }
    proof {
        lemma_after_keyword(c.input@, c.pos as int);
    }
    c.skip_word();
    match parse_value_word(c) {
        Some(v) => Ok(value_into_text(v)),
        None => Err(error_here(c, owned("expected scope path after `IN SCOPE`"))),
    }
}

/// The view of a find query being built.
pub open spec fn find_v(
    target: TargetType,
    scope: Option<Seq<char>>,
    conds: Seq<ConditionV>,
    lens: Option<Seq<char>>,
) -> FindV {
    FindV { target, scope, conditions: conds, apply_lens: lens }
}

/// The optional clauses of `FIND`, from index `i`. They end at the end
/// of the input, at `)`, or at an `AND` / `OR` that joins queries.
pub open spec fn p_find_clauses(
    s: Seq<char>,
    i: int,
    target: TargetType,
    scope: Option<Seq<char>>,
    conds: Seq<ConditionV>,
    lens: Option<Seq<char>>,
) -> Result<(FindV, int), ParseErrorV>
    decreases s.len() - i,
{
    if i < 0 || i > s.len() {
        Ok((find_v(target, scope, conds, lens), i))
    } else {
        let k = ws_end(s, i);
        proof {
            lemma_ws_end(s, i);
        }
        if k >= s.len() || s[k] == ')' || keyword_is(s, k, "AND"@) || keyword_is(s, k, "OR"@) {
            Ok((find_v(target, scope, conds, lens), k))
        } else {
            match peek_keyword_at(s, k) {
                None => Err(err_at(s, k, "expected IN, WHERE, APPLY, or end of query"@)),
                Some(w) => if keyword_is(s, k, "IN"@) {
                    if scope is Some {
                        Err(err_at(s, k, "duplicate IN SCOPE clause"@))
                    } else {
                        match p_scope(s, k) {
                            Err(e) => Err(e),
                            Ok((sc, j)) => if k < j <= s.len() {
                                p_find_clauses(s, j, target, Some(sc), conds, lens)
                            } else {
                                Ok((find_v(target, scope, conds, lens), k))
                            },
                        }
                    }
                } else if keyword_is(s, k, "WHERE"@) {
                    match p_where(s, after_keyword(s, k)) {
                        Err(e) => Err(e),
                        Ok((cs, j)) => if k < j <= s.len() {
                            p_find_clauses(s, j, target, scope, cs, lens)
                        } else {
                            Ok((find_v(target, scope, conds, lens), k))
                        },
                    }
                } else if keyword_is(s, k, "APPLY"@) {
                    if lens is Some {
                        Err(err_at(s, k, "duplicate APPLY clause"@))
                    } else {
                        match p_identifier(s, after_keyword(s, k), "lens name"@) {
                            Err(e) => Err(e),
                            Ok((l, j)) => if k < j <= s.len() {
                                p_find_clauses(s, j, target, scope, conds, Some(l))
                            } else {
                                Ok((find_v(target, scope, conds, lens), k))
                            },
                        }
                    }
                } else {
                    Err(
                        err_at(
                            s,
                            k,
                            "expected IN, WHERE, APPLY, or end of query, found `"@ + seq_upper(w)
                                + "`"@,
                        ),
                    )
                },
            }
        }
    }
}

/// The body of `FIND`, from just after the keyword.
pub open spec fn p_find_after(s: Seq<char>, i: int) -> Result<(FindV, int), ParseErrorV> {
    match p_target(s, ws_end(s, i)) {
        Err(e) => Err(e),
        Ok((t, j)) => p_find_clauses(s, j, t, None, Seq::empty(), None),
    }
}

fn parse_find_after(c: &mut Cursor) -> (r: Result<FindQuery, ParseError>)
    requires
        old(c).wf(),
    ensures
        moved(*old(c), *final(c)),
        step_ok(r, final(c).pos as int, p_find_after(old(c).input@, old(c).pos as int)),
        r is Ok ==> old(c).pos < final(c).pos,
{
    let ghost s = c.input@;
    proof {
        lemma_ws_end(s, c.pos as int);
    }
    c.skip_ws();
    let target = parse_target(c)?;
    let mut scope: Option<String> = None;
    let mut conditions: Vec<Condition> = Vec::new();
    let mut apply_lens: Option<String> = None;
    assert(conditions_view(conditions) =~= Seq::<ConditionV>::empty());
    loop
        invariant_except_break
            p_find_clauses(
                s,
                c.pos as int,
                target,
                opt_view(scope),
                conditions_view(conditions),
                opt_view(apply_lens),
            ) == p_find_after(s, old(c).pos as int),
        invariant
            c.wf(),
            c.input@ == s,
            s == old(c).input@,
            old(c).pos < c.pos <= s.len(),
        ensures
            c.wf(),
            c.input@ == s,
            old(c).pos < c.pos <= s.len(),
            p_find_after(s, old(c).pos as int) == Ok::<(FindV, int), ParseErrorV>(
                (
                    find_v(
                        target,
                        opt_view(scope),
                        conditions_view(conditions),
                        opt_view(apply_lens),
                    ),
                    c.pos as int,
                ),
            ),
        decreases s.len() - c.pos,
    {
        let ghost i = c.pos as int;
        proof {
            lemma_ws_end(s, i);
        }
        c.skip_ws();
        let k = c.pos;
        if c.is_eof() || c.peek_char() == Some(')') || c.keyword_is("AND") || c.keyword_is("OR") {
            break;
        }
        let w = match c.peek_keyword_chars() {
            Some(w) => w,
            None => {
                return Err(
                    error_here(c, owned("expected IN, WHERE, APPLY, or end of query")),
                );
            },
        };
        proof {
            lemma_after_keyword(s, k as int);
        }
        if c.keyword_is("IN") {
            if scope.is_some() {
                return Err(error_here(c, owned("duplicate IN SCOPE clause")));
            }
            let sc = parse_scope_clause(c)?;
            scope = Some(sc);
        } else if c.keyword_is("WHERE") {
            c.skip_word();
            let cs = parse_where_clauses(c)?;
            conditions = cs;
        } else if c.keyword_is("APPLY") {
            if apply_lens.is_some() {
                return Err(error_here(c, owned("duplicate APPLY clause")));
            }
            c.skip_word();
            let lens = parse_identifier(c, "lens name")?;
            apply_lens = Some(lens);
        } else {
            let up = upper_vec(&w);
            let m = concat3("expected IN, WHERE, APPLY, or end of query, found `", &up, "`");
            return Err(error_here(c, m));
        }
    }
    Ok(FindQuery { target, scope, conditions, apply_lens })
}

// ---------------------------------------------------------------------------
// EXPLORE
// ---------------------------------------------------------------------------

pub open spec fn p_explore_direction(s: Seq<char>, m: int) -> Result<(Direction, int), ParseErrorV> {
    match p_identifier(s, ws_end(s, m), "direction (callers|callees)"@) {
        Err(e) => Err(e),
        Ok((raw, j)) => if eq_ignore_case(raw, "callers"@) {
            Ok((Direction::Callers, j))
        } else if eq_ignore_case(raw, "callees"@) {
            Ok((Direction::Callees, j))
        } else {
            Err(
                err_at(
                    s,
                    j,
                    "expected `callers` or `callees`, found `"@ + seq_lower(raw) + "`"@,
                ),
            )
        },
    }
}

fn parse_explore_direction(c: &mut Cursor) -> (r: Result<Direction, ParseError>)
    requires
        old(c).wf(),
    ensures
        moved(*old(c), *final(c)),
        step_ok(r, final(c).pos as int, p_explore_direction(old(c).input@, old(c).pos as int)),
{
    proof {
        lemma_ws_end(c.input@, c.pos as int);
    }
    c.skip_ws();
    let raw = parse_identifier(c, "direction (callers|callees)")?;
    let w = chars_of(raw.as_str());
    if is_lit_ignore_case(&w, "callers") {
        Ok(Direction::Callers)
    } else if is_lit_ignore_case(&w, "callees") {
        Ok(Direction::Callees)
    } else {
        let low = lower_vec(&w);
        Err(error_here(c, concat3("expected `callers` or `callees`, found `", &low, "`")))
    }
}

pub open spec fn p_depth_after(s: Seq<char>, m: int) -> Result<(u32, int), ParseErrorV> {
    let a = ws_end(s, m);
    match peek_keyword_at(s, a) {
        None => Err(err_at(s, a, "expected `DEPTH <n>`"@)),
        Some(w) => if !keyword_is(s, a, "DEPTH"@) {
            Err(err_at(s, a, "expected `DEPTH`, found `"@ + seq_upper(w) + "`"@))
        } else {
            p_u32(s, after_keyword(s, a), "DEPTH"@)
        },
    }
}

fn parse_depth_after(c: &mut Cursor) -> (r: Result<u32, ParseError>)
    requires
        old(c).wf(),
    ensures
        moved(*old(c), *final(c)),
        step_ok(r, final(c).pos as int, p_depth_after(old(c).input@, old(c).pos as int)),
{
    proof {
        lemma_ws_end(c.input@, c.pos as int);
    }
    c.skip_ws();
    if c.peek_keyword_chars().is_none() {
        return Err(error_here(c, owned("expected `DEPTH <n>`")));
    }
    if !c.keyword_is("DEPTH") {
        let up = keyword_upper(c);
        return Err(error_here(c, concat3("expected `DEPTH`, found `", &up, "`")));
    }
    proof {
        lemma_after_keyword(c.input@, c.pos as int);
    }
    c.skip_word();
    parse_u32(c, "DEPTH")
}

/// The body of `EXPLORE`, from just after the keyword.
pub open spec fn p_explore_after(s: Seq<char>, i: int) -> Result<(ExploreV, int), ParseErrorV> {
    let a = ws_end(s, i);
    match p_value_word(s, a) {
        None => Err(err_at(s, a, "expected object_ref (e.g. symbol:src/main.rs:main:1)"@)),
        Some((v, j)) => {
            let k = ws_end(s, j);
            match peek_keyword_at(s, k) {
                None => Err(err_at(s, k, "expected `THROUGH` after object_ref"@)),
                Some(w) => if !keyword_is(s, k, "THROUGH"@) {
                    Err(err_at(s, k, "expected `THROUGH`, found `"@ + seq_upper(w) + "`"@))
                } else {
                    match p_explore_direction(s, after_keyword(s, k)) {
                        Err(e) => Err(e),
                        Ok((d, m)) => match p_depth_after(s, m) {
                            Err(e) => Err(e),
                            Ok((n, e)) => Ok(
                                (ExploreV { object_ref: value_text(v), direction: d, depth: n }, e),
                            ),
                        },
                    }
                },
            }
        },
    }
}

fn parse_explore_after(c: &mut Cursor) -> (r: Result<ExploreQuery, ParseError>)
    requires
        old(c).wf(),
    ensures
        moved(*old(c), *final(c)),
        step_ok(r, final(c).pos as int, p_explore_after(old(c).input@, old(c).pos as int)),
{
    proof {
        lemma_ws_end(c.input@, c.pos as int);
    }
    c.skip_ws();
    let object_ref = match parse_value_word(c) {
        Some(v) => value_into_text(v),
        None => {
            return Err(
                error_here(c, owned("expected object_ref (e.g. symbol:src/main.rs:main:1)")),
            );
        },
    };
    proof {
        lemma_ws_end(c.input@, c.pos as int);
    }
    c.skip_ws();
    if c.peek_keyword_chars().is_none() {
        return Err(error_here(c, owned("expected `THROUGH` after object_ref")));
    }
    if !c.keyword_is("THROUGH") {
        let up = keyword_upper(c);
        return Err(error_here(c, concat3("expected `THROUGH`, found `", &up, "`")));
    }
    proof {
        lemma_after_keyword(c.input@, c.pos as int);
    }
    c.skip_word();
    let direction = parse_explore_direction(c)?;
    let depth = parse_depth_after(c)?;
    Ok(ExploreQuery { object_ref, direction, depth })
}

// ---------------------------------------------------------------------------
// PATH
// ---------------------------------------------------------------------------

/// The optional clauses of `PATH` (`MAX HOPS <n>`, `WHERE ...`), from
/// index `i`.
pub open spec fn p_path_clauses(
    s: Seq<char>,
    i: int,
    from: Seq<char>,
    to: Seq<char>,
    max_hops: Option<u32>,
    conds: Seq<ConditionV>,
) -> Result<(PathV, int), ParseErrorV>
    decreases s.len() - i,
{
    let done = PathV { from, to, max_hops, conditions: conds };
    if i < 0 || i >= s.len() {
        Ok((done, i))
    } else if keyword_is(s, i, "MAX"@) {
        let a = after_keyword(s, i);
        if !keyword_is(s, a, "HOPS"@) {
            Err(err_at(s, a, "PATH: expected `HOPS` after `MAX`"@))
        } else {
            match p_u32(s, after_keyword(s, a), "MAX HOPS"@) {
                Err(e) => Err(e),
                Ok((v, j)) => if i < j <= s.len() {
                    proof {
                        lemma_ws_end(s, j);
                    }
                    p_path_clauses(s, ws_end(s, j), from, to, Some(v), conds)
                } else {
                    Ok((done, i))
                },
            }
        }
    } else if keyword_is(s, i, "WHERE"@) {
        match p_where(s, after_keyword(s, i)) {
            Err(e) => Err(e),
            Ok((cs, j)) => if i < j <= s.len() {
                proof {
                    lemma_ws_end(s, j);
                }
                p_path_clauses(s, ws_end(s, j), from, to, max_hops, cs)
            } else {
                Ok((done, i))
            },
        }
    } else {
        Ok((done, i))
    }
}

/// `PATH FROM <from> TO <to> [MAX HOPS <n>] [WHERE ...]`, from the
/// `PATH` keyword at `i`.
pub open spec fn p_path(s: Seq<char>, i: int) -> Result<(PathV, int), ParseErrorV> {
    let a = after_keyword(s, i);
    if !keyword_is(s, a, "FROM"@) {
        Err(err_at(s, a, "PATH: expected `FROM`"@))
    } else {
        match p_object_ref(s, after_keyword(s, a), "PATH FROM <obj>"@) {
            Err(e) => Err(e),
            Ok((from, j)) => {
                let k = ws_end(s, j);
                if !keyword_is(s, k, "TO"@) {
                    Err(err_at(s, k, "PATH: expected `TO`"@))
                } else {
                    match p_object_ref(s, after_keyword(s, k), "PATH TO <obj>"@) {
                        Err(e) => Err(e),
                        Ok((to, m)) => p_path_clauses(s, ws_end(s, m), from, to, None, Seq::empty()),
                    }
                }
            },
        }
    }
}

fn parse_path(c: &mut Cursor) -> (r: Result<PathQuery, ParseError>)
    requires
        old(c).wf(),
    ensures
        moved(*old(c), *final(c)),
        step_ok(r, final(c).pos as int, p_path(old(c).input@, old(c).pos as int)),
        r is Ok ==> after_keyword(old(c).input@, old(c).pos as int) <= final(c).pos,
{
    let ghost s = c.input@;
    proof {
        lemma_after_keyword(s, c.pos as int);
    }
    c.skip_word();
    let ghost a = c.pos;
    if !c.keyword_is("FROM") {
        return Err(error_here(c, owned("PATH: expected `FROM`")));
    }
    proof {
        lemma_after_keyword(s, c.pos as int);
    }
    c.skip_word();
    let from = parse_object_ref(c, "PATH FROM <obj>")?;
    proof {
        lemma_ws_end(s, c.pos as int);
    }
    c.skip_ws();
    if !c.keyword_is("TO") {
        return Err(error_here(c, owned("PATH: expected `TO`")));
    }
    proof {
        lemma_after_keyword(s, c.pos as int);
    }
    c.skip_word();
    let to = parse_object_ref(c, "PATH TO <obj>")?;
    proof {
        lemma_ws_end(s, c.pos as int);
    }
    c.skip_ws();
    let mut max_hops: Option<u32> = None;
    let mut conditions: Vec<Condition> = Vec::new();
    assert(conditions_view(conditions) =~= Seq::<ConditionV>::empty());
    let ghost start = c.pos as int;
    loop
        invariant_except_break
            p_path_clauses(s, c.pos as int, from@, to@, max_hops, conditions_view(conditions))
                == p_path(s, old(c).pos as int),
        invariant
            c.wf(),
            c.input@ == s,
            s == old(c).input@,
            a == after_keyword(s, old(c).pos as int),
            old(c).pos <= a <= start <= c.pos <= s.len(),
        ensures
            c.wf(),
            c.input@ == s,
            a <= c.pos <= s.len(),
            p_path(s, old(c).pos as int) == Ok::<(PathV, int), ParseErrorV>(
                (
                    PathV {
                        from: from@,
                        to: to@,
                        max_hops,
                        conditions: conditions_view(conditions),
                    },
                    c.pos as int,
                ),
            ),
        decreases s.len() - c.pos,
    {
        if c.is_eof() {
            break;
        }
        let ghost i = c.pos as int;
        proof {
            lemma_after_keyword(s, i);
        }
        if c.keyword_is("MAX") {
            c.skip_word();
            if !c.keyword_is("HOPS") {
                return Err(error_here(c, owned("PATH: expected `HOPS` after `MAX`")));
            }
            proof {
                lemma_after_keyword(s, c.pos as int);
            }
            c.skip_word();
            let v = parse_u32(c, "MAX HOPS")?;
            max_hops = Some(v);
        } else if c.keyword_is("WHERE") {
            c.skip_word();
            let cs = parse_where_clauses(c)?;
            conditions = cs;
        } else {
            break;
        }
        proof {
            lemma_ws_end(s, c.pos as int);
        }
        c.skip_ws();
    }
    Ok(PathQuery { from, to, max_hops, conditions })
}

// ---------------------------------------------------------------------------
// NEIGHBORS and SUBGRAPH
// ---------------------------------------------------------------------------

/// A traversal depth, capped at 5.
pub open spec fn cap_depth(d: u32) -> u32 {
    if d < 5 {
        d
    } else {
        5
    }
}

pub open spec fn p_direction_kw(s: Seq<char>, i: int) -> Result<
    (TraversalDirection, int),
    ParseErrorV,
> {
    match p_identifier(s, i, "direction (incoming|outgoing|both)"@) {
        Err(e) => Err(e),
        Ok((raw, j)) => if eq_ignore_case(raw, "incoming"@) {
            Ok((TraversalDirection::Incoming, j))
        } else if eq_ignore_case(raw, "outgoing"@) {
            Ok((TraversalDirection::Outgoing, j))
        } else if eq_ignore_case(raw, "both"@) {
            Ok((TraversalDirection::Both, j))
        } else {
            Err(
                err_at(
                    s,
                    j,
                    "expected `incoming`, `outgoing`, or `both`, found `"@ + seq_lower(raw)
                        + "`"@,
                ),
            )
        },
    }
}

fn parse_direction_kw(c: &mut Cursor) -> (r: Result<TraversalDirection, ParseError>)
    requires
        old(c).wf(),
    ensures
        moved(*old(c), *final(c)),
        step_ok(r, final(c).pos as int, p_direction_kw(old(c).input@, old(c).pos as int)),
        r is Ok ==> old(c).pos < final(c).pos,
{
    let raw = parse_identifier(c, "direction (incoming|outgoing|both)")?;
    let w = chars_of(raw.as_str());
    if is_lit_ignore_case(&w, "incoming") {
        Ok(TraversalDirection::Incoming)
    } else if is_lit_ignore_case(&w, "outgoing") {
        Ok(TraversalDirection::Outgoing)
    } else if is_lit_ignore_case(&w, "both") {
        Ok(TraversalDirection::Both)
    } else {
        let low = lower_vec(&w);
        Err(
            error_here(
                c,
                concat3("expected `incoming`, `outgoing`, or `both`, found `", &low, "`"),
            ),
        )
    }
}

/// The optional clauses of `NEIGHBORS` (`DIRECTION`, `WHERE`) or of
/// `SUBGRAPH` (also `DEPTH`, when `allow_depth`), from index `i`.
pub open spec fn p_rooted_clauses(
    s: Seq<char>,
    i: int,
    allow_depth: bool,
    root: Seq<char>,
    depth: u32,
    direction: TraversalDirection,
    conds: Seq<ConditionV>,
) -> Result<(RootedV, int), ParseErrorV>
    decreases s.len() - i,
{
    let done = RootedV { root, depth, direction, conditions: conds };
    if i < 0 || i >= s.len() {
        Ok((done, i))
    } else if allow_depth && keyword_is(s, i, "DEPTH"@) {
        match p_u32(s, after_keyword(s, i), "DEPTH"@) {
            Err(e) => Err(e),
            Ok((d, j)) => if i < j <= s.len() {
                proof {
                    lemma_ws_end(s, j);
                }
                p_rooted_clauses(s, ws_end(s, j), allow_depth, root, cap_depth(d), direction, conds)
            } else {
                Ok((done, i))
            },
        }
    } else if keyword_is(s, i, "DIRECTION"@) {
        match p_direction_kw(s, after_keyword(s, i)) {
            Err(e) => Err(e),
            Ok((dir, j)) => if i < j <= s.len() {
                proof {
                    lemma_ws_end(s, j);
                }
                p_rooted_clauses(s, ws_end(s, j), allow_depth, root, depth, dir, conds)
            } else {
                Ok((done, i))
            },
        }
    } else if keyword_is(s, i, "WHERE"@) {
        match p_where(s, after_keyword(s, i)) {
            Err(e) => Err(e),
            Ok((cs, j)) => if i < j <= s.len() {
                proof {
                    lemma_ws_end(s, j);
                }
                p_rooted_clauses(s, ws_end(s, j), allow_depth, root, depth, direction, cs)
            } else {
                Ok((done, i))
            },
        }
    } else {
        Ok((done, i))
    }
}

fn parse_rooted_clauses(c: &mut Cursor, allow_depth: bool, root: String, depth0: u32) -> (r: Result<
    NeighborsQuery,
    ParseError,
>)
    requires
        old(c).wf(),
    ensures
        moved(*old(c), *final(c)),
        step_ok(
            r,
            final(c).pos as int,
            p_rooted_clauses(
                old(c).input@,
                old(c).pos as int,
                allow_depth,
                root@,
                depth0,
                TraversalDirection::Both,
                Seq::empty(),
            ),
        ),
{
    let ghost s = c.input@;
    let mut depth = depth0;
    let mut direction = TraversalDirection::Both;
    let mut conditions: Vec<Condition> = Vec::new();
    assert(conditions_view(conditions) =~= Seq::<ConditionV>::empty());
    loop
        invariant_except_break
            p_rooted_clauses(
                s,
                c.pos as int,
                allow_depth,
                root@,
                depth,
                direction,
                conditions_view(conditions),
            ) == p_rooted_clauses(
                s,
                old(c).pos as int,
                allow_depth,
                root@,
                depth0,
                TraversalDirection::Both,
                Seq::empty(),
            ),
        invariant
            c.wf(),
            c.input@ == s,
            s == old(c).input@,
            old(c).pos <= c.pos <= s.len(),
        ensures
            c.wf(),
            c.input@ == s,
            old(c).pos <= c.pos <= s.len(),
            p_rooted_clauses(
                s,
                old(c).pos as int,
                allow_depth,
                root@,
                depth0,
                TraversalDirection::Both,
                Seq::empty(),
            ) == Ok::<(RootedV, int), ParseErrorV>(
                (
                    RootedV { root: root@, depth, direction, conditions: conditions_view(conditions) },
                    c.pos as int,
                ),
            ),
        decreases s.len() - c.pos,
    {
        if c.is_eof() {
            break;
        }
        let ghost i = c.pos as int;
        proof {
            lemma_after_keyword(s, i);
        }
        if allow_depth && c.keyword_is("DEPTH") {
            c.skip_word();
            let d = parse_u32(c, "DEPTH")?;
            depth = if d < 5 {
                d
            } else {
                5
            };
        } else if c.keyword_is("DIRECTION") {
            c.skip_word();
            direction = parse_direction_kw(c)?;
        } else if c.keyword_is("WHERE") {
            c.skip_word();
            let cs = parse_where_clauses(c)?;
            conditions = cs;
        } else {
            break;
        }
        proof {
            lemma_ws_end(s, c.pos as int);
        }
        c.skip_ws();
    }
    Ok(NeighborsQuery { root, depth, direction, conditions })
}

/// `NEIGHBORS <root> DEPTH <n> [DIRECTION <d>] [WHERE ...]`, from the
/// keyword at `i`. The depth is capped at 5.
pub open spec fn p_neighbors(s: Seq<char>, i: int) -> Result<(RootedV, int), ParseErrorV> {
    match p_object_ref(s, after_keyword(s, i), "NEIGHBORS <root>"@) {
        Err(e) => Err(e),
        Ok((root, j)) => {
            let k = ws_end(s, j);
            if !keyword_is(s, k, "DEPTH"@) {
                Err(err_at(s, k, "NEIGHBORS: expected `DEPTH` after root"@))
            } else {
                match p_u32(s, after_keyword(s, k), "DEPTH"@) {
                    Err(e) => Err(e),
                    Ok((d, m)) => p_rooted_clauses(
                        s,
                        ws_end(s, m),
                        false,
                        root,
                        cap_depth(d),
                        TraversalDirection::Both,
                        Seq::empty(),
                    ),
                }
            }
        },
    }
}

fn parse_neighbors(c: &mut Cursor) -> (r: Result<NeighborsQuery, ParseError>)
    requires
        old(c).wf(),
    ensures
        moved(*old(c), *final(c)),
        step_ok(r, final(c).pos as int, p_neighbors(old(c).input@, old(c).pos as int)),
        r is Ok ==> after_keyword(old(c).input@, old(c).pos as int) <= final(c).pos,
{
    let ghost s = c.input@;
    proof {
        lemma_after_keyword(s, c.pos as int);
    }
    c.skip_word();
    let root = parse_object_ref(c, "NEIGHBORS <root>")?;
    proof {
        lemma_ws_end(s, c.pos as int);
    }
    c.skip_ws();
    if !c.keyword_is("DEPTH") {
        return Err(error_here(c, owned("NEIGHBORS: expected `DEPTH` after root")));
    }
    proof {
        lemma_after_keyword(s, c.pos as int);
    }
    c.skip_word();
    let d = parse_u32(c, "DEPTH")?;
    let depth = if d < 5 {
        d
    } else {
        5
    };
    proof {
        lemma_ws_end(s, c.pos as int);
    }
    c.skip_ws();
    parse_rooted_clauses(c, false, root, depth)
}

/// `SUBGRAPH ROOT <root> [DEPTH <n>] [DIRECTION <d>] [WHERE ...]`, from
/// the keyword at `i`; depth 3 and direction `Both` by default.
pub open spec fn p_subgraph(s: Seq<char>, i: int) -> Result<(RootedV, int), ParseErrorV> {
    let a = after_keyword(s, i);
    if !keyword_is(s, a, "ROOT"@) {
        Err(err_at(s, a, "SUBGRAPH: expected `ROOT`"@))
    } else {
        match p_object_ref(s, after_keyword(s, a), "SUBGRAPH ROOT <obj>"@) {
            Err(e) => Err(e),
            Ok((root, j)) => p_rooted_clauses(
                s,
                ws_end(s, j),
                true,
                root,
                3,
                TraversalDirection::Both,
                Seq::empty(),
            ),
        }
    }
}

fn parse_subgraph(c: &mut Cursor) -> (r: Result<SubgraphQuery, ParseError>)
    requires
        old(c).wf(),
    ensures
        moved(*old(c), *final(c)),
        step_ok(r, final(c).pos as int, p_subgraph(old(c).input@, old(c).pos as int)),
        r is Ok ==> after_keyword(old(c).input@, old(c).pos as int) <= final(c).pos,
{
    let ghost s = c.input@;
    proof {
        lemma_after_keyword(s, c.pos as int);
    }
    c.skip_word();
    if !c.keyword_is("ROOT") {
        return Err(error_here(c, owned("SUBGRAPH: expected `ROOT`")));
    }
    proof {
        lemma_after_keyword(s, c.pos as int);
    }
    c.skip_word();
    let root = parse_object_ref(c, "SUBGRAPH ROOT <obj>")?;
    proof {
        lemma_ws_end(s, c.pos as int);
    }
    c.skip_ws();
    let n = parse_rooted_clauses(c, true, root, 3)?;
    Ok(
        SubgraphQuery {
            root: n.root,
            depth: n.depth,
            direction: n.direction,
            conditions: n.conditions,
        },
    )
}

// ---------------------------------------------------------------------------
// CLUSTER
// ---------------------------------------------------------------------------

/// The optional clauses of `CLUSTER` (`METHOD`, `WHERE`), from `i`.
pub open spec fn p_cluster_clauses(
    s: Seq<char>,
    i: int,
    method: ClusterMethod,
    conds: Seq<ConditionV>,
) -> Result<(ClusterV, int), ParseErrorV>
    decreases s.len() - i,
{
    let done = ClusterV { method, conditions: conds };
    if i < 0 || i >= s.len() {
        Ok((done, i))
    } else if keyword_is(s, i, "METHOD"@) {
        match p_identifier(s, after_keyword(s, i), "method (scc|connected)"@) {
            Err(e) => Err(e),
            Ok((raw, j)) => if !(i < j <= s.len()) {
                Ok((done, i))
            } else if eq_ignore_case(raw, "scc"@) {
                proof {
                    lemma_ws_end(s, j);
                }
                p_cluster_clauses(s, ws_end(s, j), ClusterMethod::Scc, conds)
            } else if eq_ignore_case(raw, "connected"@) {
                proof {
                    lemma_ws_end(s, j);
                }
                p_cluster_clauses(s, ws_end(s, j), ClusterMethod::Connected, conds)
            } else {
                Err(
                    err_at(
                        s,
                        j,
                        "CLUSTER: unknown method `"@ + seq_lower(raw)
                            + "` — expected scc or connected"@,
                    ),
                )
            },
        }
    } else if keyword_is(s, i, "WHERE"@) {
        match p_where(s, after_keyword(s, i)) {
            Err(e) => Err(e),
            Ok((cs, j)) => if i < j <= s.len() {
                proof {
                    lemma_ws_end(s, j);
                }
                p_cluster_clauses(s, ws_end(s, j), method, cs)
            } else {
                Ok((done, i))
            },
        }
    } else {
        Ok((done, i))
    }
}

/// `CLUSTER [METHOD (scc|connected)] [WHERE ...]`, from the keyword at
/// `i`; bare `CLUSTER` means `scc`.
pub open spec fn p_cluster(s: Seq<char>, i: int) -> Result<(ClusterV, int), ParseErrorV> {
    p_cluster_clauses(s, after_keyword(s, i), ClusterMethod::Scc, Seq::empty())
}

fn parse_cluster(c: &mut Cursor) -> (r: Result<ClusterQuery, ParseError>)
    requires
        old(c).wf(),
    ensures
        moved(*old(c), *final(c)),
        step_ok(r, final(c).pos as int, p_cluster(old(c).input@, old(c).pos as int)),
        r is Ok ==> after_keyword(old(c).input@, old(c).pos as int) <= final(c).pos,
{
    let ghost s = c.input@;
    proof {
        lemma_after_keyword(s, c.pos as int);
    }
    c.skip_word();
    let ghost a = c.pos as int;
    let mut method = ClusterMethod::Scc;
    let mut conditions: Vec<Condition> = Vec::new();
    assert(conditions_view(conditions) =~= Seq::<ConditionV>::empty());
    loop
        invariant_except_break
            p_cluster_clauses(s, c.pos as int, method, conditions_view(conditions)) == p_cluster(
                s,
                old(c).pos as int,
            ),
        invariant
            c.wf(),
            c.input@ == s,
            s == old(c).input@,
            a == after_keyword(s, old(c).pos as int),
            old(c).pos <= a <= c.pos <= s.len(),
        ensures
            c.wf(),
            c.input@ == s,
            old(c).pos <= a <= c.pos <= s.len(),
            p_cluster(s, old(c).pos as int) == Ok::<(ClusterV, int), ParseErrorV>(
                (ClusterV { method, conditions: conditions_view(conditions) }, c.pos as int),
            ),
        decreases s.len() - c.pos,
    {
        if c.is_eof() {
            break;
        }
        let ghost i = c.pos as int;
        proof {
            lemma_after_keyword(s, i);
        }
        if c.keyword_is("METHOD") {
            c.skip_word();
            let raw = parse_identifier(c, "method (scc|connected)")?;
            let w = chars_of(raw.as_str());
            if is_lit_ignore_case(&w, "scc") {
                method = ClusterMethod::Scc;
            } else if is_lit_ignore_case(&w, "connected") {
                method = ClusterMethod::Connected;
            } else {
                let low = lower_vec(&w);
                let m = concat3("CLUSTER: unknown method `", &low, "` — expected scc or connected");
                return Err(error_here(c, m));
            }
        } else if c.keyword_is("WHERE") {
            c.skip_word();
            let cs = parse_where_clauses(c)?;
            conditions = cs;
        } else {
            break;
        }
        proof {
            lemma_ws_end(s, c.pos as int);
        }
        c.skip_ws();
    }
    Ok(ClusterQuery { method, conditions })
}

// ---------------------------------------------------------------------------
// EXPLAIN
// ---------------------------------------------------------------------------

/// `EXPLAIN FROM <from> TO <to> [WHERE ...]`, from the keyword at `i`.
/// `MAX HOPS` is refused: the path is exact.
pub open spec fn p_explain(s: Seq<char>, i: int) -> Result<(ExplainV, int), ParseErrorV> {
    let a = after_keyword(s, i);
    if !keyword_is(s, a, "FROM"@) {
        Err(err_at(s, a, "EXPLAIN: expected `FROM`"@))
    } else {
        match p_object_ref(s, after_keyword(s, a), "EXPLAIN FROM <obj>"@) {
            Err(e) => Err(e),
            Ok((from, j)) => {
                let k = ws_end(s, j);
                if !keyword_is(s, k, "TO"@) {
                    Err(err_at(s, k, "EXPLAIN: expected `TO`"@))
                } else {
                    match p_object_ref(s, after_keyword(s, k), "EXPLAIN TO <obj>"@) {
                        Err(e) => Err(e),
                        Ok((to, m)) => {
                            let n = ws_end(s, m);
                            if keyword_is(s, n, "MAX"@) {
                                Err(
                                    err_at(
                                        s,
                                        n,
                                        "EXPLAIN rejects `MAX HOPS` (path is exact, not BFS)"@,
                                    ),
                                )
                            } else if keyword_is(s, n, "WHERE"@) {
                                match p_where(s, after_keyword(s, n)) {
                                    Err(e) => Err(e),
                                    Ok((cs, e)) => Ok((ExplainV { from, to, conditions: cs }, e)),
                                }
                            } else {
                                Ok((ExplainV { from, to, conditions: Seq::empty() }, n))
                            }
                        },
                    }
                }
            },
        }
    }
}

fn parse_explain(c: &mut Cursor) -> (r: Result<ExplainQuery, ParseError>)
    requires
        old(c).wf(),
    ensures
        moved(*old(c), *final(c)),
        step_ok(r, final(c).pos as int, p_explain(old(c).input@, old(c).pos as int)),
        r is Ok ==> after_keyword(old(c).input@, old(c).pos as int) <= final(c).pos,
{
    let ghost s = c.input@;
    proof {
        lemma_after_keyword(s, c.pos as int);
    }
    c.skip_word();
    if !c.keyword_is("FROM") {
        return Err(error_here(c, owned("EXPLAIN: expected `FROM`")));
    }
    proof {
        lemma_after_keyword(s, c.pos as int);
    }
    c.skip_word();
    let from = parse_object_ref(c, "EXPLAIN FROM <obj>")?;
    proof {
        lemma_ws_end(s, c.pos as int);
    }
    c.skip_ws();
    if !c.keyword_is("TO") {
        return Err(error_here(c, owned("EXPLAIN: expected `TO`")));
    }
    proof {
        lemma_after_keyword(s, c.pos as int);
    }
    c.skip_word();
    let to = parse_object_ref(c, "EXPLAIN TO <obj>")?;
    proof {
        lemma_ws_end(s, c.pos as int);
    }
    c.skip_ws();
    if c.keyword_is("MAX") {
        return Err(error_here(c, owned("EXPLAIN rejects `MAX HOPS` (path is exact, not BFS)")));
    }
    if c.keyword_is("WHERE") {
        proof {
            lemma_after_keyword(s, c.pos as int);
        }
        c.skip_word();
        let conditions = parse_where_clauses(c)?;
        return Ok(ExplainQuery { from, to, conditions });
    }
    let conditions: Vec<Condition> = Vec::new();
    assert(conditions_view(conditions) =~= Seq::<ConditionV>::empty());
    Ok(ExplainQuery { from, to, conditions })
}

// ---------------------------------------------------------------------------
// Boolean composition
// ---------------------------------------------------------------------------

/// `left op right`, flattening a left operand that already joins with
/// the same operator: `A OR B OR C` is one `OR` of three operands.
pub open spec fn join_v(op: BooleanOp, left: QueryV, right: QueryV) -> QueryV {
    match left {
        QueryV::Boolean(o, ops) => if o == op {
            QueryV::Boolean(op, ops.push(right))
        } else {
            QueryV::Boolean(op, seq![left, right])
        },
        _ => QueryV::Boolean(op, seq![left, right]),
    }
}

/// The view of a boolean query, element by element.
proof fn lemma_boolean_view(b: BooleanQuery)
    ensures
        query_view(MoldQLQuery::Boolean(b)) == QueryV::Boolean(
            b.op,
            b.operands@.map_values(|q: MoldQLQuery| query_view(q)),
        ),
{
    let v = query_view(MoldQLQuery::Boolean(b));
    match v {
        QueryV::Boolean(o, ops) => {
            assert(ops =~= b.operands@.map_values(|q: MoldQLQuery| query_view(q)));
        },
        _ => {},
    }
}

fn join(op: BooleanOp, left: MoldQLQuery, right: MoldQLQuery) -> (r: MoldQLQuery)
    ensures
        r@ == join_v(op, left@, right@),
{
    let ghost lv = left@;
    let ghost rv = right@;
    match left {
        MoldQLQuery::Boolean(b) => {
            proof {
                lemma_boolean_view(b);
            }
            if b.op == op {
                let mut operands = b.operands;
                let ghost before = operands@;
                operands.push(right);
                let nb = BooleanQuery { op, operands };
                proof {
                    lemma_boolean_view(nb);
                    assert(nb.operands@.map_values(|q: MoldQLQuery| query_view(q)) =~= before.map_values(
                        |q: MoldQLQuery| query_view(q),
                    ).push(rv));
                }
                MoldQLQuery::Boolean(nb)
            } else {
                let l = MoldQLQuery::Boolean(b);
                let nb = BooleanQuery { op, operands: vec![l, right] };
                proof {
                    lemma_boolean_view(nb);
                    assert(nb.operands@.map_values(|q: MoldQLQuery| query_view(q)) =~= seq![lv, rv]);
                }
                MoldQLQuery::Boolean(nb)
            }
        },
        other => {
            let nb = BooleanQuery { op, operands: vec![other, right] };
            proof {
                lemma_boolean_view(nb);
                assert(nb.operands@.map_values(|q: MoldQLQuery| query_view(q)) =~= seq![lv, rv]);
            }
            MoldQLQuery::Boolean(nb)
        },
    }
}

/// `NOT q`.
pub open spec fn not_v(q: QueryV) -> QueryV {
    QueryV::Boolean(BooleanOp::Not, seq![q])
}

/// A primitive, by its leading keyword at `a`.
pub open spec fn p_primitive(s: Seq<char>, a: int) -> Result<(QueryV, int), ParseErrorV> {
    match peek_keyword_at(s, a) {
        None => Err(err_at(s, a, "expected primitive or `(`"@)),
        Some(w) => if keyword_is(s, a, "PATH"@) {
            match p_path(s, a) {
                Err(e) => Err(e),
                Ok((v, j)) => Ok((QueryV::Path(v), j)),
            }
        } else if keyword_is(s, a, "NEIGHBORS"@) {
            match p_neighbors(s, a) {
                Err(e) => Err(e),
                Ok((v, j)) => Ok((QueryV::Neighbors(v), j)),
            }
        } else if keyword_is(s, a, "SUBGRAPH"@) {
            match p_subgraph(s, a) {
                Err(e) => Err(e),
                Ok((v, j)) => Ok((QueryV::Subgraph(v), j)),
            }
        } else if keyword_is(s, a, "CLUSTER"@) {
            match p_cluster(s, a) {
                Err(e) => Err(e),
                Ok((v, j)) => Ok((QueryV::Cluster(v), j)),
            }
        } else if keyword_is(s, a, "EXPLAIN"@) {
            match p_explain(s, a) {
                Err(e) => Err(e),
                Ok((v, j)) => Ok((QueryV::Explain(v), j)),
            }
        } else if keyword_is(s, a, "FIND"@) {
            match p_find_after(s, after_keyword(s, a)) {
                Err(e) => Err(e),
                Ok((v, j)) => Ok((QueryV::Find(v), j)),
            }
        } else if keyword_is(s, a, "EXPLORE"@) {
            match p_explore_after(s, after_keyword(s, a)) {
                Err(e) => Err(e),
                Ok((v, j)) => Ok((QueryV::Explore(v), j)),
            }
        } else {
            Err(
                err_at(
                    s,
                    a,
                    "unknown leading keyword `"@ + seq_upper(w)
                        + "` — expected FIND or EXPLORE, or a graph primitive: PATH, NEIGHBORS, SUBGRAPH, CLUSTER, EXPLAIN"@,
                ),
            )
        },
    }
}

/// One operand: a parenthesized group, `NOT atom`, or a primitive.
pub open spec fn p_atom(s: Seq<char>, i: int) -> Result<(QueryV, int), ParseErrorV>
    decreases s.len() - i, 0int,
{
    if i < 0 || i > s.len() {
        Err(err_at(s, i, "expected primitive or `(`"@))
    } else {
        let a = ws_end(s, i);
        proof {
            lemma_ws_end(s, i);
        }
        if a < s.len() && s[a] == '(' {
            let b = ws_end(s, a + 1);
            proof {
                lemma_ws_end(s, a + 1);
            }
            match p_or(s, b) {
                Err(e) => Err(e),
                Ok((q, j)) => {
                    let k = ws_end(s, j);
                    if k < s.len() && s[k] == ')' {
                        Ok((q, k + 1))
                    } else {
                        Err(err_at(s, k, "expected `)` to close boolean group"@))
                    }
                },
            }
        } else if keyword_is(s, a, "NOT"@) {
            proof {
                lemma_after_keyword(s, a);
            }
            match p_atom(s, after_keyword(s, a)) {
                Err(e) => Err(e),
                Ok((q, j)) => Ok((not_v(q), j)),
            }
        } else {
            p_primitive(s, a)
        }
    }
}

/// The operands after the first of an `AND` chain, from `i`.
pub open spec fn p_and_rest(s: Seq<char>, i: int, left: QueryV) -> Result<(QueryV, int), ParseErrorV>
    decreases s.len() - i, 1int,
{
    if i < 0 || i > s.len() || !keyword_is(s, i, "AND"@) {
        Ok((left, i))
    } else {
        proof {
            lemma_after_keyword(s, i);
        }
        match p_atom(s, after_keyword(s, i)) {
            Err(e) => Err(e),
            Ok((q, j)) => if i < j <= s.len() {
                proof {
                    lemma_ws_end(s, j);
                }
                p_and_rest(s, ws_end(s, j), join_v(BooleanOp::And, left, q))
            } else {
                Ok((left, i))
            },
        }
    }
}

/// `atom (AND atom)*`.
pub open spec fn p_and(s: Seq<char>, i: int) -> Result<(QueryV, int), ParseErrorV>
    decreases s.len() - i, 2int,
{
    if i < 0 || i > s.len() {
        Err(err_at(s, i, "expected primitive or `(`"@))
    } else {
        match p_atom(s, i) {
            Err(e) => Err(e),
            Ok((q, j)) => if i <= j <= s.len() {
                proof {
                    lemma_ws_end(s, j);
                }
                p_and_rest(s, ws_end(s, j), q)
            } else {
                Ok((q, j))
            },
        }
    }
}

/// The operands after the first of an `OR` chain, from `i`.
pub open spec fn p_or_rest(s: Seq<char>, i: int, left: QueryV) -> Result<(QueryV, int), ParseErrorV>
    decreases s.len() - i, 3int,
{
    if i < 0 || i > s.len() || !keyword_is(s, i, "OR"@) {
        Ok((left, i))
    } else {
        proof {
            lemma_after_keyword(s, i);
        }
        match p_and(s, after_keyword(s, i)) {
            Err(e) => Err(e),
            Ok((q, j)) => if i < j <= s.len() {
                proof {
                    lemma_ws_end(s, j);
                }
                p_or_rest(s, ws_end(s, j), join_v(BooleanOp::Or, left, q))
            } else {
                Ok((left, i))
            },
        }
    }
}

/// `and_chain (OR and_chain)*`.
pub open spec fn p_or(s: Seq<char>, i: int) -> Result<(QueryV, int), ParseErrorV>
    decreases s.len() - i, 4int,
{
    if i < 0 || i > s.len() {
        Err(err_at(s, i, "expected primitive or `(`"@))
    } else {
        match p_and(s, i) {
            Err(e) => Err(e),
            Ok((q, j)) => if i <= j <= s.len() {
                proof {
                    lemma_ws_end(s, j);
                }
                p_or_rest(s, ws_end(s, j), q)
            } else {
                Ok((q, j))
            },
        }
    }
}

fn parse_primitive(c: &mut Cursor) -> (r: Result<MoldQLQuery, ParseError>)
    requires
        old(c).wf(),
    ensures
        moved(*old(c), *final(c)),
        step_ok(r, final(c).pos as int, p_primitive(old(c).input@, old(c).pos as int)),
        r is Ok ==> after_keyword(old(c).input@, old(c).pos as int) <= final(c).pos,
{
    let ghost s = c.input@;
    proof {
        lemma_after_keyword(s, c.pos as int);
    }
    let w = match c.peek_keyword_chars() {
        Some(w) => w,
        None => {
            return Err(error_here(c, owned("expected primitive or `(`")));
        },
    };
    if c.keyword_is("PATH") {
        let q = parse_path(c)?;
        Ok(MoldQLQuery::Path(q))
    } else if c.keyword_is("NEIGHBORS") {
        let q = parse_neighbors(c)?;
        Ok(MoldQLQuery::Neighbors(q))
    } else if c.keyword_is("SUBGRAPH") {
        let q = parse_subgraph(c)?;
        Ok(MoldQLQuery::Subgraph(q))
    } else if c.keyword_is("CLUSTER") {
        let q = parse_cluster(c)?;
        Ok(MoldQLQuery::Cluster(q))
    } else if c.keyword_is("EXPLAIN") {
        let q = parse_explain(c)?;
        Ok(MoldQLQuery::Explain(q))
    } else if c.keyword_is("FIND") {
        c.skip_word();
        let q = parse_find_after(c)?;
        Ok(MoldQLQuery::Find(q))
    } else if c.keyword_is("EXPLORE") {
        c.skip_word();
        let q = parse_explore_after(c)?;
        Ok(MoldQLQuery::Explore(q))
    } else {
        let up = upper_vec(&w);
        let m = concat3(
            "unknown leading keyword `",
            &up,
            "` — expected FIND or EXPLORE, or a graph primitive: PATH, NEIGHBORS, SUBGRAPH, CLUSTER, EXPLAIN",
        );
        Err(error_here(c, m))
    }
}

fn parse_atom(c: &mut Cursor) -> (r: Result<MoldQLQuery, ParseError>)
    requires
        old(c).wf(),
    ensures
        moved(*old(c), *final(c)),
        step_ok(r, final(c).pos as int, p_atom(old(c).input@, old(c).pos as int)),
        r is Ok ==> old(c).pos < final(c).pos,
    decreases old(c).input@.len() - old(c).pos, 0int,
{
    let ghost s = c.input@;
    proof {
        lemma_ws_end(s, c.pos as int);
    }
    c.skip_ws();
    let ghost a = c.pos as int;
    if c.peek_char() == Some('(') {
        c.advance();
        proof {
            lemma_ws_end(s, c.pos as int);
        }
        c.skip_ws();
        let inner = parse_or(c)?;
        proof {
            lemma_ws_end(s, c.pos as int);
        }
        c.skip_ws();
        if c.peek_char() != Some(')') {
            return Err(error_here(c, owned("expected `)` to close boolean group")));
        }
        c.advance();
        return Ok(inner);
    }
    proof {
        lemma_after_keyword(s, a);
    }
    if c.keyword_is("NOT") {
        c.skip_word();
        let inner = parse_atom(c)?;
        let ghost iv = inner@;
        let b = BooleanQuery { op: BooleanOp::Not, operands: vec![inner] };
        proof {
            lemma_boolean_view(b);
            assert(b.operands@.map_values(|q: MoldQLQuery| query_view(q)) =~= seq![iv]);
        }
        return Ok(MoldQLQuery::Boolean(b));
    }
    parse_primitive(c)
}

fn parse_and(c: &mut Cursor) -> (r: Result<MoldQLQuery, ParseError>)
    requires
        old(c).wf(),
    ensures
        moved(*old(c), *final(c)),
        step_ok(r, final(c).pos as int, p_and(old(c).input@, old(c).pos as int)),
        r is Ok ==> old(c).pos < final(c).pos,
    decreases old(c).input@.len() - old(c).pos, 2int,
{
    let ghost s = c.input@;
    let mut left = parse_atom(c)?;
    proof {
        lemma_ws_end(s, c.pos as int);
    }
    c.skip_ws();
    loop
        invariant_except_break
            p_and_rest(s, c.pos as int, left@) == p_and(s, old(c).pos as int),
        invariant
            c.wf(),
            c.input@ == s,
            s == old(c).input@,
            old(c).pos < c.pos <= s.len(),
        ensures
            c.wf(),
            c.input@ == s,
            old(c).pos < c.pos <= s.len(),
            p_and(s, old(c).pos as int) == Ok::<(QueryV, int), ParseErrorV>(
                (left@, c.pos as int),
            ),
        decreases s.len() - c.pos,
    {
        if !c.keyword_is("AND") {
            break;
        }
        proof {
            lemma_after_keyword(s, c.pos as int);
        }
        c.skip_word();
        let right = parse_atom(c)?;
        left = join(BooleanOp::And, left, right);
        proof {
            lemma_ws_end(s, c.pos as int);
        }
        c.skip_ws();
    }
    Ok(left)
}

fn parse_or(c: &mut Cursor) -> (r: Result<MoldQLQuery, ParseError>)
    requires
        old(c).wf(),
    ensures
        moved(*old(c), *final(c)),
        step_ok(r, final(c).pos as int, p_or(old(c).input@, old(c).pos as int)),
        r is Ok ==> old(c).pos < final(c).pos,
    decreases old(c).input@.len() - old(c).pos, 4int,
{
    let ghost s = c.input@;
    let mut left = parse_and(c)?;
    proof {
        lemma_ws_end(s, c.pos as int);
    }
    c.skip_ws();
    loop
        invariant_except_break
            p_or_rest(s, c.pos as int, left@) == p_or(s, old(c).pos as int),
        invariant
            c.wf(),
            c.input@ == s,
            s == old(c).input@,
            old(c).pos < c.pos <= s.len(),
        ensures
            c.wf(),
            c.input@ == s,
            old(c).pos < c.pos <= s.len(),
            p_or(s, old(c).pos as int) == Ok::<(QueryV, int), ParseErrorV>(
                (left@, c.pos as int),
            ),
        decreases s.len() - c.pos,
    {
        if !c.keyword_is("OR") {
            break;
        }
        proof {
            lemma_after_keyword(s, c.pos as int);
        }
        c.skip_word();
        let right = parse_and(c)?;
        left = join(BooleanOp::Or, left, right);
        proof {
            lemma_ws_end(s, c.pos as int);
        }
        c.skip_ws();
    }
    Ok(left)
}

/// The whole query `s`: a query with nothing but whitespace after it.
pub open spec fn parse_spec(s: Seq<char>) -> Result<QueryV, ParseErrorV> {
    let a = ws_end(s, 0);
    if a >= s.len() {
        Err(ParseErrorV { message: "empty query — expected FIND or EXPLORE"@, line: 1, column: 1 })
    } else {
        match p_or(s, a) {
            Err(e) => Err(e),
            Ok((q, j)) => {
                let k = ws_end(s, j);
                if k < s.len() {
                    Err(err_at(s, k, "unexpected trailing input: `"@ + remaining_at(s, k) + "`"@))
                } else {
                    Ok(q)
                }
            },
        }
    }
}

/// Parses a MoldQL / ExplorerQL query.
pub fn parse(input: &str) -> (r: Result<MoldQLQuery, ParseError>)
    requires
        input@.len() <= max_query_len(),
    ensures
        match (r, parse_spec(input@)) {
            (Ok(q), Ok(v)) => q@ == v,
            (Err(e), Err(ev)) => e@ == ev,
            _ => false,
        },
{
    let mut c = Cursor::new(input);
    proof {
        lemma_ws_end(c.input@, 0);
    }
    c.skip_ws();
    if c.is_eof() {
        return Err(ParseError { message: owned("empty query — expected FIND or EXPLORE"), line: 1, column: 1 });
    }
    let q = parse_or(&mut c)?;
    proof {
        lemma_ws_end(c.input@, c.pos as int);
    }
    c.skip_ws();
    if !c.is_eof() {
        let rest = c.remaining();
        let mut m = owned("unexpected trailing input: `");
        append(&mut m, rest.as_str());
        append(&mut m, "`");
        return Err(error_here(&c, m));
    }
    Ok(q)
}

} // verus!
