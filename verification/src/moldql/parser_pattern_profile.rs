//! Recursive-descent parser for the Pattern Profile grammar.
//!
//! ```text
//! PatternQuery ::= [SHORTEST] MATCH NodePattern ('-' EdgePattern Arrow NodePattern)*
//!                  [WHERE Predicate (AND Predicate)*] [RETURN Projection]
//! NodePattern  ::= '(' [Name ':'] Kind ')'
//! EdgePattern  ::= '[' [Name ':'] Kind [Quantifier] ']'
//! Quantifier   ::= '?' | '+' | '*' DIGITS ['..' DIGITS]
//! Arrow        ::= '->' | '<-' | '<->'
//! Projection   ::= PATH '(' Name (',' Name)* ')' | NODE '(' Name ')' | EDGE '(' Name ')'
//!                | (Field | COUNT '(' [Name] ')' AS Alias) (',' ...)*
//!                  [ORDER BY Name [ASC|DESC]] [LIMIT INTEGER]
//! Predicate    ::= [Name '.'] Field Op (STRING | NUMBER)
//! ```
//!
//! Paths are always bounded: a bare `*` is refused. Names here are runs
//! of alphanumeric characters and `_`. As in the query parser, each
//! step `pp_*` has a spec over the text and an index, and the
//! executable step returns exactly what it gives.

use vstd::prelude::*;
use crate::text::{
    seq_upper, owned, concat, concat3, append, append_chars, slice_chars, string_of, upper_vec,
    is_lit, spec_is_digit,
};
use crate::number::{digits_value, all_digits, is_number_literal, number_text, read_number};
use crate::moldql::ast::{
    Aggregation, AggregationV, Binding, BindingV, EdgeDirection, EdgePattern, EdgeV, MoldQLQuery,
    OrderClause, OrderDirection, OrderV, PathQuantifier, PatternOp, PatternPredicate,
    PatternProjection, PatternQuery, PatternV, PatternValue, PatternValueV, PredicateTarget,
    PredicateV, ProjectionV, QueryV, RowField, RowFieldV, TargetV, opt_view, strings_view,
    Op, op_symbol, pattern_op_as_op,
};
use crate::moldql::cursor::{
    Cursor, StopSet, scan_to, ws_end, peek_keyword_at, keyword_is, after_keyword, remaining_at,
    max_query_len, lemma_scan_to_bounds,
};
use crate::moldql::parser::{
    ParseError, ParseErrorV, err_at, step_ok, moved, error_here, lemma_ws_end, lemma_after_keyword,
    p_op,
};

verus! {

// ---------------------------------------------------------------------------
// Tokens
// ---------------------------------------------------------------------------

/// A name: a non-empty run of alphanumeric characters and `_`.
pub open spec fn pp_identifier(s: Seq<char>, i: int, what: Seq<char>) -> Result<
    (Seq<char>, int),
    ParseErrorV,
> {
    let j = scan_to(s, i, StopSet::NotIdentChar);
    if j == i {
        Err(err_at(s, i, "expected "@ + what))
    } else {
        Ok((s.subrange(i, j), j))
    }
}

fn pp_parse_identifier(c: &mut Cursor, what: &str) -> (r: Result<String, ParseError>)
    requires
        old(c).wf(),
    ensures
        moved(*old(c), *final(c)),
        step_ok(r, final(c).pos as int, pp_identifier(old(c).input@, old(c).pos as int, what@)),
        r is Ok ==> old(c).pos < final(c).pos,
{
    let start = c.pos;
    proof {
        lemma_scan_to_bounds(c.input@, start as int, StopSet::NotIdentChar);
    }
    c.scan(StopSet::NotIdentChar);
    if c.pos == start {
        return Err(error_here(c, concat("expected ", what)));
    }
    Ok(c.text_from(start))
}

/// Scans to the end of `stop`'s run and returns the characters read.
fn take_run(c: &mut Cursor, stop: StopSet) -> (r: Vec<char>)
    requires
        old(c).wf(),
    ensures
        moved(*old(c), *final(c)),
        final(c).pos == scan_to(old(c).input@, old(c).pos as int, stop),
        r@ == old(c).input@.subrange(old(c).pos as int, final(c).pos as int),
{
    let start = c.pos;
    proof {
        lemma_scan_to_bounds(c.input@, start as int, stop);
    }
    c.scan(stop);
    slice_chars(&c.input, start, c.pos)
}

/// The `u32` a digit string denotes, `None` when it does not fit.
pub open spec fn digits_u32(d: Seq<char>) -> Option<u32> {
    if digits_value(d) <= u32::MAX {
        Some(digits_value(d) as u32)
    } else {
        None
    }
}

proof fn lemma_digits_push(d: Seq<char>, x: char)
    requires
        all_digits(d.push(x)),
    ensures
        digits_value(d.push(x)) == digits_value(d) * 10 + ((x as u32) - ('0' as u32)),
        digits_value(d.push(x)) >= digits_value(d),
        all_digits(d),
{
    assert(d.push(x).drop_last() =~= d);
    assert forall|k: int| 0 <= k < d.len() implies spec_is_digit(#[trigger] d[k]) by {
        assert(d.push(x)[k] == d[k]);
    }
    assert(spec_is_digit(d.push(x)[d.len() as int]));
}

/// Reads the digit string `d` as a `u32`, `None` on overflow.
fn digits_to_u32(d: &Vec<char>) -> (r: Option<u32>)
    requires
        all_digits(d@),
    ensures
        r == digits_u32(d@),
{
    let mut v: u64 = 0;
    let mut over = false;
    let mut i: usize = 0;
    while i < d.len()
        invariant
            i <= d.len(),
            all_digits(d@),
            over ==> digits_value(d@.take(i as int)) > u32::MAX,
            !over ==> v == digits_value(d@.take(i as int)) && v <= u32::MAX,
        decreases d.len() - i,
    {
        let ch = d[i];
        proof {
            assert(d@.take(i + 1) =~= d@.take(i as int).push(ch));
            assert(all_digits(d@.take(i + 1))) by {
                assert forall|k: int| 0 <= k < i + 1 implies spec_is_digit(
                    #[trigger] d@.take(i + 1)[k],
                ) by {
                    assert(d@.take(i + 1)[k] == d@[k]);
                }
            }
            lemma_digits_push(d@.take(i as int), ch);
        }
        if !over {
            let w = v * 10 + ((ch as u32) - ('0' as u32)) as u64;
            if w > 0xFFFF_FFFF {
                over = true;
            } else {
                v = w;
            }
        }
        i = i + 1;
    }
    assert(d@.take(d.len() as int) =~= d@);
    if over {
        None
    } else {
        Some(v as u32)
    }
}

/// The digit run at `i` has only digits.
proof fn lemma_digit_run(s: Seq<char>, i: int)
    requires
        0 <= i <= s.len(),
    ensures
        all_digits(s.subrange(i, scan_to(s, i, StopSet::NotDigit))),
        i <= scan_to(s, i, StopSet::NotDigit) <= s.len(),
{
    lemma_scan_to_bounds(s, i, StopSet::NotDigit);
    let j = scan_to(s, i, StopSet::NotDigit);
    assert forall|k: int| 0 <= k < j - i implies spec_is_digit(#[trigger] s.subrange(i, j)[k]) by {
        assert(s.subrange(i, j)[k] == s[i + k]);
    }
}

/// An unsigned integer.
pub open spec fn pp_integer(s: Seq<char>, i: int) -> Result<(u32, int), ParseErrorV> {
    let j = scan_to(s, i, StopSet::NotDigit);
    if j == i {
        Err(err_at(s, i, "expected integer"@))
    } else {
        match digits_u32(s.subrange(i, j)) {
            Some(v) => Ok((v, j)),
            None => Err(err_at(s, j, "invalid integer `"@ + s.subrange(i, j) + "`"@)),
        }
    }
}

fn pp_parse_integer(c: &mut Cursor) -> (r: Result<u32, ParseError>)
    requires
        old(c).wf(),
    ensures
        moved(*old(c), *final(c)),
        step_ok(r, final(c).pos as int, pp_integer(old(c).input@, old(c).pos as int)),
{
    proof {
        lemma_digit_run(c.input@, c.pos as int);
    }
    let start = c.pos;
    let d = take_run(c, StopSet::NotDigit);
    if c.pos == start {
        return Err(error_here(c, owned("expected integer")));
    }
    match digits_to_u32(&d) {
        Some(v) => Ok(v),
        None => Err(error_here(c, concat3("invalid integer `", &d, "`"))),
    }
}

// ---------------------------------------------------------------------------
// Node and edge patterns
// ---------------------------------------------------------------------------

pub open spec fn pp_close_node(s: Seq<char>, i: int, name: Option<Seq<char>>, kind: Seq<char>) -> Result<
    (BindingV, int),
    ParseErrorV,
> {
    if 0 <= i < s.len() && s[i] == ')' {
        Ok((BindingV { name, kind }, i + 1))
    } else {
        Err(err_at(s, i, "expected `)` to close node pattern"@))
    }
}

fn pp_parse_close_node(c: &mut Cursor, name: Option<String>, kind: String) -> (r: Result<
    Binding,
    ParseError,
>)
    requires
        old(c).wf(),
    ensures
        moved(*old(c), *final(c)),
        step_ok(
            r,
            final(c).pos as int,
            pp_close_node(old(c).input@, old(c).pos as int, opt_view(name), kind@),
        ),
{
    if c.peek_char() != Some(')') {
        return Err(error_here(c, owned("expected `)` to close node pattern")));
    }
    c.advance();
    Ok(Binding { name, kind })
}

/// `(name:Kind)`, `(Kind)` or `(:Kind)`.
pub open spec fn pp_node(s: Seq<char>, i: int) -> Result<(BindingV, int), ParseErrorV> {
    let a = ws_end(s, i);
    if !(0 <= a < s.len() && s[a] == '(') {
        Err(err_at(s, a, "expected `(` to open node pattern"@))
    } else {
        let b = ws_end(s, a + 1);
        if !(b < s.len() && s[b] == ':') {
            match pp_identifier(s, b, "node name or kind"@) {
                Err(e) => Err(e),
                Ok((name, j)) => {
                    let k = ws_end(s, j);
                    if k < s.len() && s[k] == ':' {
                        match pp_identifier(s, ws_end(s, k + 1), "node kind"@) {
                            Err(e) => Err(e),
                            Ok((kind, m)) => pp_close_node(s, ws_end(s, m), Some(name), kind),
                        }
                    } else {
                        pp_close_node(s, k, None, name)
                    }
                },
            }
        } else {
            match pp_identifier(s, ws_end(s, b + 1), "node kind"@) {
                Err(e) => Err(e),
                Ok((kind, m)) => pp_close_node(s, ws_end(s, m), None, kind),
            }
        }
    }
}

fn pp_parse_node(c: &mut Cursor) -> (r: Result<Binding, ParseError>)
    requires
        old(c).wf(),
    ensures
        moved(*old(c), *final(c)),
        step_ok(r, final(c).pos as int, pp_node(old(c).input@, old(c).pos as int)),
        r is Ok ==> old(c).pos < final(c).pos,
{
    let ghost s = c.input@;
    proof {
        lemma_ws_end(s, c.pos as int);
    }
    c.skip_ws();
    if c.peek_char() != Some('(') {
        return Err(error_here(c, owned("expected `(` to open node pattern")));
    }
    c.advance();
    proof {
        lemma_ws_end(s, c.pos as int);
    }
    c.skip_ws();
    if c.peek_char() != Some(':') {
        let name = pp_parse_identifier(c, "node name or kind")?;
        proof {
            lemma_ws_end(s, c.pos as int);
        }
        c.skip_ws();
        if c.peek_char() == Some(':') {
            c.advance();
            proof {
                lemma_ws_end(s, c.pos as int);
            }
            c.skip_ws();
            let kind = pp_parse_identifier(c, "node kind")?;
            proof {
                lemma_ws_end(s, c.pos as int);
            }
            c.skip_ws();
            pp_parse_close_node(c, Some(name), kind)
        } else {
            pp_parse_close_node(c, None, name)
        }
    } else {
        c.advance();
        proof {
            lemma_ws_end(s, c.pos as int);
        }
        c.skip_ws();
        let kind = pp_parse_identifier(c, "node kind")?;
        proof {
            lemma_ws_end(s, c.pos as int);
        }
        c.skip_ws();
        pp_parse_close_node(c, None, kind)
    }
}

/// The most hops `+` allows.
pub open spec fn plus_max_hops() -> u32 {
    8
}

/// `?`, `+`, `*n` or `*m..n`, at the quantifier character `i`. A bare
/// `*` is refused. In `*m..n` an upper bound that does not read as a
/// `u32` counts as 0.
pub open spec fn pp_quantifier(s: Seq<char>, i: int) -> Result<(PathQuantifier, int), ParseErrorV> {
    if i < 0 || i >= s.len() {
        Err(err_at(s, i, "expected quantifier (*, +, ?)"@))
    } else if s[i] == '?' {
        Ok((PathQuantifier { max_hops: Some(1), min_hops: 0 }, i + 1))
    } else if s[i] == '+' {
        Ok((PathQuantifier { max_hops: Some(plus_max_hops()), min_hops: 1 }, i + 1))
    } else if s[i] == '*' {
        let a = ws_end(s, i + 1);
        let b = scan_to(s, a, StopSet::NotDigit);
        let captured = s.subrange(a, b);
        let c = ws_end(s, b);
        if b == a {
            Err(err_at(s, c, "Pattern Profile rejects unbounded paths; use *m..n with finite n"@))
        } else {
            match digits_u32(captured) {
                None => Err(err_at(s, c, "invalid number `"@ + captured + "` in quantifier"@)),
                Some(n) => if c < s.len() && s[c] == '.' {
                    let d = c + 1;
                    if !(d < s.len() && s[d] == '.') {
                        Err(err_at(s, d, "expected `..` after *m"@))
                    } else {
                        let f = ws_end(s, d + 1);
                        let g = scan_to(s, f, StopSet::NotDigit);
                        let hi = match digits_u32(s.subrange(f, g)) {
                            Some(x) => x,
                            None => 0,
                        };
                        Ok((PathQuantifier { max_hops: Some(hi), min_hops: n }, ws_end(s, g)))
                    }
                } else {
                    Ok((PathQuantifier { max_hops: Some(n), min_hops: 0 }, c))
                },
            }
        }
    } else {
        Err(err_at(s, i, "unexpected quantifier `"@ + seq![s[i]] + "`"@))
    }
}

fn pp_parse_quantifier(c: &mut Cursor) -> (r: Result<PathQuantifier, ParseError>)
    requires
        old(c).wf(),
    ensures
        moved(*old(c), *final(c)),
        step_ok(r, final(c).pos as int, pp_quantifier(old(c).input@, old(c).pos as int)),
{
    let ghost s = c.input@;
    let ch = match c.peek_char() {
        Some(ch) => ch,
        None => {
            return Err(error_here(c, owned("expected quantifier (*, +, ?)")));
        },
    };
    if ch == '?' {
        c.advance();
        return Ok(PathQuantifier { max_hops: Some(1), min_hops: 0 });
    }
    if ch == '+' {
        c.advance();
        return Ok(PathQuantifier { max_hops: Some(8), min_hops: 1 });
    }
    if ch != '*' {
        let mut m = owned("unexpected quantifier `");
        let mut one: Vec<char> = Vec::new();
        one.push(ch);
        append_chars(&mut m, &one);
        append(&mut m, "`");
        return Err(error_here(c, m));
    }
    c.advance();
    proof {
        lemma_ws_end(s, c.pos as int);
    }
    c.skip_ws();
    proof {
        lemma_digit_run(s, c.pos as int);
    }
    let a = c.pos;
    let captured = take_run(c, StopSet::NotDigit);
    let b = c.pos;
    proof {
        lemma_ws_end(s, c.pos as int);
    }
    c.skip_ws();
    if b == a {
        return Err(
            error_here(c, owned("Pattern Profile rejects unbounded paths; use *m..n with finite n")),
        );
    }
    let n = match digits_to_u32(&captured) {
        Some(n) => n,
        None => {
            return Err(error_here(c, concat3("invalid number `", &captured, "` in quantifier")));
        },
    };
    if c.peek_char() == Some('.') {
        c.advance();
        if c.peek_char() != Some('.') {
            return Err(error_here(c, owned("expected `..` after *m")));
        }
        c.advance();
        proof {
            lemma_ws_end(s, c.pos as int);
        }
        c.skip_ws();
        proof {
            lemma_digit_run(s, c.pos as int);
        }
        let hi_digits = take_run(c, StopSet::NotDigit);
        let hi = match digits_to_u32(&hi_digits) {
            Some(x) => x,
            None => 0,
        };
        proof {
            lemma_ws_end(s, c.pos as int);
        }
        c.skip_ws();
        Ok(PathQuantifier { max_hops: Some(hi), min_hops: n })
    } else {
        Ok(PathQuantifier { max_hops: Some(n), min_hops: 0 })
    }
}

/// The name and kind of an edge pattern, from just after `[`.
pub open spec fn pp_edge_head(s: Seq<char>, b: int) -> Result<
    ((Option<Seq<char>>, Seq<char>), int),
    ParseErrorV,
> {
    if !(0 <= b < s.len() && s[b] == ':') {
        let j = scan_to(s, b, StopSet::NotIdentChar);
        let name = s.subrange(b, j);
        let k = ws_end(s, j);
        if k < s.len() && s[k] == ':' {
            match pp_identifier(s, ws_end(s, k + 1), "edge kind"@) {
                Err(e) => Err(e),
                Ok((kind, m)) => Ok(((Some(name), kind), ws_end(s, m))),
            }
        } else {
            Ok(((None, name), k))
        }
    } else {
        match pp_identifier(s, ws_end(s, b + 1), "edge kind"@) {
            Err(e) => Err(e),
            Ok((kind, m)) => Ok(((None, kind), ws_end(s, m))),
        }
    }
}

/// `[name:Kind quantifier]`; the direction comes from the arrow after
/// the pattern, so it is `Both` here.
pub open spec fn pp_edge(s: Seq<char>, i: int) -> Result<(EdgeV, int), ParseErrorV> {
    let a = ws_end(s, i);
    if !(0 <= a < s.len() && s[a] == '[') {
        Err(err_at(s, a, "expected `[` to open edge pattern"@))
    } else {
        match pp_edge_head(s, ws_end(s, a + 1)) {
            Err(e) => Err(e),
            Ok(((name, kind), k)) => {
                let q = if 0 <= k < s.len() && (s[k] == '*' || s[k] == '+' || s[k] == '?') {
                    pp_quantifier(s, k)
                } else {
                    Ok((PathQuantifier { max_hops: Some(1), min_hops: 1 }, k))
                };
                match q {
                    Err(e) => Err(e),
                    Ok((quantifier, m)) => {
                        let n = ws_end(s, m);
                        if !(n < s.len() && s[n] == ']') {
                            Err(err_at(s, n, "expected `]` to close edge pattern"@))
                        } else {
                            Ok(
                                (
                                    EdgeV {
                                        name,
                                        kind,
                                        quantifier,
                                        direction: EdgeDirection::Both,
                                    },
                                    n + 1,
                                ),
                            )
                        }
                    },
                }
            },
        }
    }
}

fn pp_parse_edge(c: &mut Cursor) -> (r: Result<EdgePattern, ParseError>)
    requires
        old(c).wf(),
    ensures
        moved(*old(c), *final(c)),
        step_ok(r, final(c).pos as int, pp_edge(old(c).input@, old(c).pos as int)),
{
    let ghost s = c.input@;
    proof {
        lemma_ws_end(s, c.pos as int);
    }
    c.skip_ws();
    if c.peek_char() != Some('[') {
        return Err(error_here(c, owned("expected `[` to open edge pattern")));
    }
    c.advance();
    proof {
        lemma_ws_end(s, c.pos as int);
    }
    c.skip_ws();
    let (name, kind): (Option<String>, String) = if c.peek_char() != Some(':') {
        let start = c.pos;
        proof {
            lemma_scan_to_bounds(s, start as int, StopSet::NotIdentChar);
        }
        c.scan(StopSet::NotIdentChar);
        let name = c.text_from(start);
        proof {
            lemma_ws_end(s, c.pos as int);
        }
        c.skip_ws();
        if c.peek_char() == Some(':') {
            c.advance();
            proof {
                lemma_ws_end(s, c.pos as int);
            }
            c.skip_ws();
            let kind = pp_parse_identifier(c, "edge kind")?;
            proof {
                lemma_ws_end(s, c.pos as int);
            }
            c.skip_ws();
            (Some(name), kind)
        } else {
            (None, name)
        }
    } else {
        c.advance();
        proof {
            lemma_ws_end(s, c.pos as int);
        }
        c.skip_ws();
        let kind = pp_parse_identifier(c, "edge kind")?;
        proof {
            lemma_ws_end(s, c.pos as int);
        }
        c.skip_ws();
        (None, kind)
    };
    let ch = c.peek_char();
    let quantifier = if ch == Some('*') || ch == Some('+') || ch == Some('?') {
        pp_parse_quantifier(c)?
    } else {
        PathQuantifier { max_hops: Some(1), min_hops: 1 }
    };
    proof {
        lemma_ws_end(s, c.pos as int);
    }
    c.skip_ws();
    if c.peek_char() != Some(']') {
        return Err(error_here(c, owned("expected `]` to close edge pattern")));
    }
    c.advance();
    Ok(EdgePattern { name, kind, quantifier, direction: EdgeDirection::Both })
}

/// `->`, `<-` or `<->`: the run of `-`, `<` and `>` after whitespace.
pub open spec fn pp_arrow(s: Seq<char>, i: int) -> Result<(EdgeDirection, int), ParseErrorV> {
    let a = ws_end(s, i);
    let b = scan_to(s, a, StopSet::NotArrowChar);
    let arrow = s.subrange(a, b);
    if arrow == "->"@ {
        Ok((EdgeDirection::Outgoing, b))
    } else if arrow == "<-"@ {
        Ok((EdgeDirection::Incoming, b))
    } else if arrow == "<->"@ {
        Ok((EdgeDirection::Both, b))
    } else {
        Err(err_at(s, b, "expected `->`, `<-`, or `<->`, found `"@ + arrow + "`"@))
    }
}

fn pp_parse_arrow(c: &mut Cursor) -> (r: Result<EdgeDirection, ParseError>)
    requires
        old(c).wf(),
    ensures
        moved(*old(c), *final(c)),
        step_ok(r, final(c).pos as int, pp_arrow(old(c).input@, old(c).pos as int)),
{
    proof {
        lemma_ws_end(c.input@, c.pos as int);
    }
    c.skip_ws();
    let arrow = take_run(c, StopSet::NotArrowChar);
    if is_lit(&arrow, "->") {
        Ok(EdgeDirection::Outgoing)
    } else if is_lit(&arrow, "<-") {
        Ok(EdgeDirection::Incoming)
    } else if is_lit(&arrow, "<->") {
        Ok(EdgeDirection::Both)
    } else {
        Err(error_here(c, concat3("expected `->`, `<-`, or `<->`, found `", &arrow, "`")))
    }
}

// ---------------------------------------------------------------------------
// The pattern: nodes joined by edges
// ---------------------------------------------------------------------------

/// The character that starts a step of the pattern ends it instead:
/// `)`, or the first letter of `WHERE` or `RETURN` in either case.
pub open spec fn ends_pattern(ch: char) -> bool {
    ch == ')' || ch == 'W' || ch == 'w' || ch == 'R' || ch == 'r'
}

/// The edge at `b` (just before `[`), its arrow and the node after it.
pub open spec fn pp_step(s: Seq<char>, b: int) -> Result<((EdgeV, BindingV), int), ParseErrorV> {
    match pp_edge(s, b) {
        Err(e) => Err(e),
        Ok((e, j)) => {
            let k = ws_end(s, j);
            let arrow = if 0 <= k < s.len() && s[k] == '-' {
                match pp_arrow(s, k) {
                    Err(x) => Err(x),
                    Ok((d, m)) => Ok((EdgeV { direction: d, ..e }, m)),
                }
            } else {
                Ok((e, k))
            };
            match arrow {
                Err(x) => Err(x),
                Ok((e2, m)) => match pp_node(s, ws_end(s, m)) {
                    Err(x) => Err(x),
                    Ok((n, j2)) => Ok(((e2, n), j2)),
                },
            }
        },
    }
}

/// The steps `- [edge] arrow (node)` from `i`, appended to `bs` / `es`.
pub open spec fn pp_chain(s: Seq<char>, i: int, bs: Seq<BindingV>, es: Seq<EdgeV>) -> Result<
    ((Seq<BindingV>, Seq<EdgeV>), int),
    ParseErrorV,
>
    decreases s.len() - i,
{
    if i < 0 || i >= s.len() {
        Ok(((bs, es), i))
    } else {
        let ch = s[i];
        let a = ws_end(s, i);
        if ends_pattern(ch) {
            Ok(((bs, es), a))
        } else if ch != '-' {
            Err(err_at(s, a, "expected `-` to start edge, found `"@ + seq![ch] + "`"@))
        } else {
            let b = ws_end(s, a + 1);
            if !(b < s.len() && s[b] == '[') {
                Err(err_at(s, b, "expected edge pattern `[...]` after `-`"@))
            } else {
                match pp_step(s, b) {
                    Err(x) => Err(x),
                    Ok(((e, n), j)) => {
                        let k = ws_end(s, j);
                        if i < k <= s.len() {
                            pp_chain(s, k, bs.push(n), es.push(e))
                        } else {
                            Ok(((bs, es), i))
                        }
                    },
                }
            }
        }
    }
}

fn pp_parse_step(c: &mut Cursor) -> (r: Result<(EdgePattern, Binding), ParseError>)
    requires
        old(c).wf(),
    ensures
        moved(*old(c), *final(c)),
        match (r, pp_step(old(c).input@, old(c).pos as int)) {
            (Ok((e, n)), Ok(((ev, nv), j))) => e@ == ev && n@ == nv && final(c).pos == j,
            (Err(x), Err(ev)) => x@ == ev,
            _ => false,
        },
        r is Ok ==> old(c).pos < final(c).pos,
{
    let ghost s = c.input@;
    let mut edge = pp_parse_edge(c)?;
    proof {
        lemma_ws_end(s, c.pos as int);
    }
    c.skip_ws();
    if c.peek_char() == Some('-') {
        let d = pp_parse_arrow(c)?;
        edge.direction = d;
    }
    proof {
        lemma_ws_end(s, c.pos as int);
    }
    c.skip_ws();
    let node = pp_parse_node(c)?;
    Ok((edge, node))
}

// ---------------------------------------------------------------------------
// Predicates
// ---------------------------------------------------------------------------

/// `[name.]field`: the target and the field name.
pub open spec fn pp_target(s: Seq<char>, i: int) -> Result<((TargetV, Seq<char>), int), ParseErrorV> {
    let a = ws_end(s, i);
    let b = scan_to(s, a, StopSet::NotIdentChar);
    let first = s.subrange(a, b);
    let c = ws_end(s, b);
    if 0 <= c < s.len() && s[c] == '.' {
        match pp_identifier(s, ws_end(s, c + 1), "field name"@) {
            Err(e) => Err(e),
            Ok((f, m)) => Ok(((TargetV::Node(first), f), m)),
        }
    } else {
        Ok(((TargetV::Anonymous, first), c))
    }
}

fn pp_parse_target(c: &mut Cursor) -> (r: Result<(PredicateTarget, String), ParseError>)
    requires
        old(c).wf(),
    ensures
        moved(*old(c), *final(c)),
        match (r, pp_target(old(c).input@, old(c).pos as int)) {
            (Ok((t, f)), Ok(((tv, fv), j))) => t@ == tv && f@ == fv && final(c).pos == j,
            (Err(x), Err(ev)) => x@ == ev,
            _ => false,
        },
{
    let ghost s = c.input@;
    proof {
        lemma_ws_end(s, c.pos as int);
    }
    c.skip_ws();
    let start = c.pos;
    proof {
        lemma_scan_to_bounds(s, start as int, StopSet::NotIdentChar);
    }
    c.scan(StopSet::NotIdentChar);
    let first = c.text_from(start);
    proof {
        lemma_ws_end(s, c.pos as int);
    }
    c.skip_ws();
    if c.peek_char() == Some('.') {
        c.advance();
        proof {
            lemma_ws_end(s, c.pos as int);
        }
        c.skip_ws();
        let field = pp_parse_identifier(c, "field name")?;
        Ok((PredicateTarget::Node(first), field))
    } else {
        Ok((PredicateTarget::Anonymous, first))
    }
}

/// A comparison operator; `=` alone means equality.
pub open spec fn pp_op(s: Seq<char>, i: int) -> Result<(PatternOp, int), ParseErrorV> {
    if i < 0 || i >= s.len() {
        Err(err_at(s, i, "expected comparison operator"@))
    } else {
        let c0 = s[i];
        let eq_next = i + 1 < s.len() && s[i + 1] == '=';
        if c0 == '>' && eq_next {
            Ok((PatternOp::Gte, i + 2))
        } else if c0 == '<' && eq_next {
            Ok((PatternOp::Lte, i + 2))
        } else if c0 == '=' && eq_next {
            Ok((PatternOp::Eq, i + 2))
        } else if c0 == '=' {
            Ok((PatternOp::Eq, i + 1))
        } else if c0 == '!' && eq_next {
            Ok((PatternOp::Neq, i + 2))
        } else if c0 == '>' {
            Ok((PatternOp::Gt, i + 1))
        } else if c0 == '<' {
            Ok((PatternOp::Lt, i + 1))
        } else {
            Err(err_at(s, i, "expected one of `>`, `>=`, `<`, `<=`, `=`, `==`, `!=`"@))
        }
    }
}

fn pp_parse_op(c: &mut Cursor) -> (r: Result<PatternOp, ParseError>)
    requires
        old(c).wf(),
    ensures
        moved(*old(c), *final(c)),
        step_ok(r, final(c).pos as int, pp_op(old(c).input@, old(c).pos as int)),
        r is Ok ==> old(c).pos < final(c).pos,
{
    let c0 = match c.peek_char() {
        Some(ch) => ch,
        None => {
            return Err(error_here(c, owned("expected comparison operator")));
        },
    };
    let eq_next = c.peek_char_at(1) == Some('=');
    if c0 == '>' && eq_next {
        c.advance_by(2);
        Ok(PatternOp::Gte)
    } else if c0 == '<' && eq_next {
        c.advance_by(2);
        Ok(PatternOp::Lte)
    } else if c0 == '=' && eq_next {
        c.advance_by(2);
        Ok(PatternOp::Eq)
    } else if c0 == '=' {
        c.advance();
        Ok(PatternOp::Eq)
    } else if c0 == '!' && eq_next {
        c.advance_by(2);
        Ok(PatternOp::Neq)
    } else if c0 == '>' {
        c.advance();
        Ok(PatternOp::Gt)
    } else if c0 == '<' {
        c.advance();
        Ok(PatternOp::Lt)
    } else {
        Err(error_here(c, owned("expected one of `>`, `>=`, `<`, `<=`, `=`, `==`, `!=`")))
    }
}

/// A quoted string, or a number made of digits and `.`.
pub open spec fn pp_value(s: Seq<char>, i: int) -> Result<(PatternValueV, int), ParseErrorV> {
    let a = ws_end(s, i);
    if 0 <= a < s.len() && s[a] == '"' {
        let b = scan_to(s, a + 1, StopSet::Quote);
        if b < s.len() {
            Ok((PatternValueV::Str(s.subrange(a + 1, b)), b + 1))
        } else {
            Err(err_at(s, b, "unterminated string"@))
        }
    } else {
        let b = scan_to(s, a, StopSet::NotNumberChar);
        let num = s.subrange(a, b);
        if b == a {
            Err(err_at(s, b, "expected number or string value"@))
        } else if !is_number_literal(num) {
            Err(err_at(s, b, "invalid number `"@ + num + "`"@))
        } else {
            Ok((PatternValueV::Number(number_text(num)), b))
        }
    }
}

fn pp_parse_value(c: &mut Cursor) -> (r: Result<PatternValue, ParseError>)
    requires
        old(c).wf(),
    ensures
        moved(*old(c), *final(c)),
        step_ok(r, final(c).pos as int, pp_value(old(c).input@, old(c).pos as int)),
{
    let ghost s = c.input@;
    proof {
        lemma_ws_end(s, c.pos as int);
    }
    c.skip_ws();
    if c.peek_char() == Some('"') {
        c.advance();
        let start = c.pos;
        proof {
            lemma_scan_to_bounds(s, start as int, StopSet::Quote);
        }
        c.scan(StopSet::Quote);
        if c.peek_char() != Some('"') {
            return Err(error_here(c, owned("unterminated string")));
        }
        let t = c.text_from(start);
        c.advance();
        return Ok(PatternValue::String(t));
    }
    let start = c.pos;
    let num = take_run(c, StopSet::NotNumberChar);
    if c.pos == start {
        return Err(error_here(c, owned("expected number or string value")));
    }
    match read_number(&num) {
        Some((text, _)) => Ok(PatternValue::Number(string_of(&text))),
        None => Err(error_here(c, concat3("invalid number `", &num, "`"))),
    }
}

/// The predicate a target, field, operator and value make: a string
/// `provenance` is a provenance filter, a numeric `confidence` a
/// confidence filter, anything else a property comparison.
pub open spec fn classify(t: TargetV, field: Seq<char>, op: PatternOp, v: PatternValueV) -> PredicateV {
    if field == "provenance"@ && v is Str {
        PredicateV::Provenance {
            target: match t {
                TargetV::Node(n) => Some(n),
                _ => None,
            },
            source: v->Str_0,
        }
    } else if field == "confidence"@ && v is Number {
        PredicateV::Confidence { target: t, op, value: v->Number_0 }
    } else {
        PredicateV::Property { target: t, field, op, value: v }
    }
}

pub open spec fn pp_predicate(s: Seq<char>, i: int) -> Result<(PredicateV, int), ParseErrorV> {
    match pp_target(s, ws_end(s, i)) {
        Err(e) => Err(e),
        Ok(((t, field), j)) => match pp_op(s, ws_end(s, j)) {
            Err(e) => Err(e),
            Ok((o, k)) => match pp_value(s, ws_end(s, k)) {
                Err(e) => Err(e),
                Ok((v, m)) => Ok((classify(t, field, o, v), m)),
            },
        },
    }
}

fn pp_parse_predicate(c: &mut Cursor) -> (r: Result<PatternPredicate, ParseError>)
    requires
        old(c).wf(),
    ensures
        moved(*old(c), *final(c)),
        step_ok(r, final(c).pos as int, pp_predicate(old(c).input@, old(c).pos as int)),
        r is Ok ==> old(c).pos < final(c).pos,
{
    let ghost s = c.input@;
    proof {
        lemma_ws_end(s, c.pos as int);
    }
    c.skip_ws();
    let (target, field) = pp_parse_target(c)?;
    proof {
        lemma_ws_end(s, c.pos as int);
    }
    c.skip_ws();
    let op = pp_parse_op(c)?;
    proof {
        lemma_ws_end(s, c.pos as int);
    }
    c.skip_ws();
    let value = pp_parse_value(c)?;
    let fc = crate::text::chars_of(field.as_str());
    let is_prov = is_lit(&fc, "provenance");
    let is_conf = is_lit(&fc, "confidence");
    match value {
        PatternValue::String(src) => {
            if is_prov {
                let t = match target {
                    PredicateTarget::Node(n) => Some(n),
                    _ => None,
                };
                return Ok(PatternPredicate::Provenance { target: t, source: src });
            }
            Ok(
                PatternPredicate::Property {
                    target,
                    field,
                    op,
                    value: PatternValue::String(src),
                },
            )
        },
        PatternValue::Number(n) => {
            if is_conf {
                return Ok(PatternPredicate::Confidence { target, op, value: n });
            }
            Ok(PatternPredicate::Property { target, field, op, value: PatternValue::Number(n) })
        },
    }
}

/// The predicates after the first: `(AND predicate)*`, from `i`.
pub open spec fn pp_predicates_rest(s: Seq<char>, i: int, acc: Seq<PredicateV>) -> Result<
    (Seq<PredicateV>, int),
    ParseErrorV,
>
    decreases s.len() - i,
{
    if i < 0 || i > s.len() || !keyword_is(s, i, "AND"@) {
        Ok((acc, i))
    } else {
        match pp_predicate(s, after_keyword(s, i)) {
            Err(e) => Err(e),
            Ok((p, j)) => {
                let k = ws_end(s, j);
                if i < k <= s.len() {
                    pp_predicates_rest(s, k, acc.push(p))
                } else {
                    Ok((acc, i))
                }
            },
        }
    }
}

pub open spec fn pp_predicates(s: Seq<char>, i: int) -> Result<(Seq<PredicateV>, int), ParseErrorV> {
    match pp_predicate(s, i) {
        Err(e) => Err(e),
        Ok((p, j)) => pp_predicates_rest(s, ws_end(s, j), seq![p]),
    }
}

fn pp_parse_predicates(c: &mut Cursor) -> (r: Result<Vec<PatternPredicate>, ParseError>)
    requires
        old(c).wf(),
    ensures
        moved(*old(c), *final(c)),
        match (r, pp_predicates(old(c).input@, old(c).pos as int)) {
            (Ok(x), Ok((v, j))) => x@.map_values(|p: PatternPredicate| p@) == v && final(c).pos
                == j,
            (Err(x), Err(e)) => x@ == e,
            _ => false,
        },
{
    let ghost s = c.input@;
    let first = pp_parse_predicate(c)?;
    let mut preds: Vec<PatternPredicate> = Vec::new();
    preds.push(first);
    proof {
        lemma_ws_end(s, c.pos as int);
        assert(preds@.map_values(|p: PatternPredicate| p@) =~= seq![first@]);
    }
    c.skip_ws();
    loop
        invariant_except_break
            pp_predicates_rest(s, c.pos as int, preds@.map_values(|p: PatternPredicate| p@))
                == pp_predicates(s, old(c).pos as int),
        invariant
            c.wf(),
            c.input@ == s,
            s == old(c).input@,
            old(c).pos <= c.pos <= s.len(),
        ensures
            c.wf(),
            c.input@ == s,
            old(c).pos <= c.pos <= s.len(),
            pp_predicates(s, old(c).pos as int) == Ok::<(Seq<PredicateV>, int), ParseErrorV>(
                (preds@.map_values(|p: PatternPredicate| p@), c.pos as int),
            ),
        decreases s.len() - c.pos,
    {
        if !c.keyword_is("AND") {
            break;
        }
        proof {
            lemma_after_keyword(s, c.pos as int);
        }
        c.skip_word();
        let p = pp_parse_predicate(c)?;
        let ghost acc = preds@.map_values(|p: PatternPredicate| p@);
        preds.push(p);
        proof {
            assert(preds@.map_values(|p: PatternPredicate| p@) =~= acc.push(p@));
            lemma_ws_end(s, c.pos as int);
        }
        c.skip_ws();
    }
    Ok(preds)
}

// ---------------------------------------------------------------------------
// Projections
// ---------------------------------------------------------------------------

/// The names of a parenthesized list from `i` (inside the parentheses).
pub open spec fn pp_list_items(s: Seq<char>, i: int, acc: Seq<Seq<char>>) -> Result<
    (Seq<Seq<char>>, int),
    ParseErrorV,
>
    decreases s.len() - i,
{
    let a = ws_end(s, i);
    if i < 0 || i > s.len() || (0 <= a < s.len() && s[a] == ')') {
        Ok((acc, a))
    } else {
        match pp_identifier(s, a, "binding name"@) {
            Err(e) => Err(e),
            Ok((x, j)) => {
                let k = ws_end(s, j);
                if 0 <= k < s.len() && s[k] == ',' && i < k + 1 {
                    pp_list_items(s, k + 1, acc.push(x))
                } else {
                    Ok((acc.push(x), k))
                }
            },
        }
    }
}

/// `( name, name, ... )`.
pub open spec fn pp_list(s: Seq<char>, i: int) -> Result<(Seq<Seq<char>>, int), ParseErrorV> {
    let a = ws_end(s, i);
    if !(0 <= a < s.len() && s[a] == '(') {
        Err(err_at(s, a, "expected `(`"@))
    } else {
        let b = ws_end(s, a + 1);
        let items = if b < s.len() && s[b] == ')' {
            Ok((Seq::<Seq<char>>::empty(), b))
        } else {
            pp_list_items(s, b, Seq::empty())
        };
        match items {
            Err(e) => Err(e),
            Ok((xs, c)) => {
                let d = ws_end(s, c);
                if !(0 <= d < s.len() && s[d] == ')') {
                    Err(err_at(s, d, "expected `)` to close list"@))
                } else {
                    Ok((xs, d + 1))
                }
            },
        }
    }
}

fn pp_parse_list(c: &mut Cursor) -> (r: Result<Vec<String>, ParseError>)
    requires
        old(c).wf(),
    ensures
        moved(*old(c), *final(c)),
        match (r, pp_list(old(c).input@, old(c).pos as int)) {
            (Ok(x), Ok((v, j))) => strings_view(x) == v && final(c).pos == j,
            (Err(x), Err(e)) => x@ == e,
            _ => false,
        },
{
    let ghost s = c.input@;
    proof {
        lemma_ws_end(s, c.pos as int);
    }
    c.skip_ws();
    let ghost a = c.pos as int;
    if c.peek_char() != Some('(') {
        return Err(error_here(c, owned("expected `(`")));
    }
    c.advance();
    proof {
        lemma_ws_end(s, c.pos as int);
    }
    c.skip_ws();
    let mut items: Vec<String> = Vec::new();
    assert(strings_view(items) =~= Seq::<Seq<char>>::empty());
    if c.peek_char() != Some(')') {
        let ghost b = c.pos as int;
        loop
            invariant_except_break
                pp_list_items(s, c.pos as int, strings_view(items)) == pp_list_items(
                    s,
                    b,
                    Seq::empty(),
                ),
            invariant
                c.wf(),
                c.input@ == s,
                s == old(c).input@,
                old(c).pos <= b <= c.pos <= s.len(),
                a == ws_end(s, old(c).pos as int),
                0 <= a < s.len() && s[a] == '(',
                b == ws_end(s, a + 1),
                !(b < s.len() && s[b] == ')'),
            ensures
                c.wf(),
                c.input@ == s,
                old(c).pos <= c.pos <= s.len(),
                pp_list_items(s, b, Seq::empty()) == Ok::<(Seq<Seq<char>>, int), ParseErrorV>(
                    (strings_view(items), c.pos as int),
                ),
            decreases s.len() - c.pos,
        {
            let ghost i = c.pos as int;
            proof {
                lemma_ws_end(s, c.pos as int);
            }
            c.skip_ws();
            if c.peek_char() == Some(')') {
                break;
            }
            let x = pp_parse_identifier(c, "binding name")?;
            let ghost acc = strings_view(items);
            items.push(x);
            proof {
                assert(strings_view(items) =~= acc.push(x@));
                lemma_ws_end(s, c.pos as int);
            }
            c.skip_ws();
            if c.peek_char() == Some(',') {
                c.advance();
            } else {
                break;
            }
        }
    }
    proof {
        lemma_ws_end(s, c.pos as int);
    }
    c.skip_ws();
    if c.peek_char() != Some(')') {
        return Err(error_here(c, owned("expected `)` to close list")));
    }
    c.advance();
    Ok(items)
}

/// `( name )` after `NODE` or `EDGE`, from just after the keyword.
pub open spec fn pp_single(s: Seq<char>, a: int, which: Seq<char>) -> Result<
    (Seq<char>, int),
    ParseErrorV,
> {
    if !(0 <= a < s.len() && s[a] == '(') {
        Err(err_at(s, a, "expected `(` after "@ + which))
    } else {
        match pp_identifier(s, ws_end(s, a + 1), "binding name"@) {
            Err(e) => Err(e),
            Ok((x, j)) => {
                let k = ws_end(s, j);
                if !(k < s.len() && s[k] == ')') {
                    Err(err_at(s, k, "expected `)` after binding name"@))
                } else {
                    Ok((x, k + 1))
                }
            },
        }
    }
}

fn pp_parse_single(c: &mut Cursor, which: &str) -> (r: Result<String, ParseError>)
    requires
        old(c).wf(),
    ensures
        moved(*old(c), *final(c)),
        step_ok(r, final(c).pos as int, pp_single(old(c).input@, old(c).pos as int, which@)),
{
    let ghost s = c.input@;
    if c.peek_char() != Some('(') {
        return Err(error_here(c, concat("expected `(` after ", which)));
    }
    c.advance();
    proof {
        lemma_ws_end(s, c.pos as int);
    }
    c.skip_ws();
    let x = pp_parse_identifier(c, "binding name")?;
    proof {
        lemma_ws_end(s, c.pos as int);
    }
    c.skip_ws();
    if c.peek_char() != Some(')') {
        return Err(error_here(c, owned("expected `)` after binding name")));
    }
    c.advance();
    Ok(x)
}

/// What a row projection collects: fields, grouping keys, aggregations.
pub struct RowAcc {
    pub fields: Seq<RowFieldV>,
    pub group_by: Seq<Seq<char>>,
    pub aggregations: Seq<AggregationV>,
}

/// `COUNT ( [name] ) AS alias`, from the `COUNT` keyword at `a`.
pub open spec fn pp_count(s: Seq<char>, a: int) -> Result<(AggregationV, int), ParseErrorV> {
    let b = after_keyword(s, a);
    if !(0 <= b < s.len() && s[b] == '(') {
        Err(err_at(s, b, "expected `(` after COUNT"@))
    } else {
        let c = ws_end(s, b + 1);
        let binding = if !(c < s.len() && s[c] == ')') {
            match pp_identifier(s, c, "edge or node name"@) {
                Err(e) => Err(e),
                Ok((x, j)) => Ok((Some(x), j)),
            }
        } else {
            Ok((None, c))
        };
        match binding {
            Err(e) => Err(e),
            Ok((bn, d)) => {
                let e = ws_end(s, d);
                if !(0 <= e < s.len() && s[e] == ')') {
                    Err(err_at(s, e, "expected `)` after COUNT binding"@))
                } else {
                    let w = ws_end(s, e + 1);
                    if !keyword_is(s, w, "AS"@) {
                        Err(err_at(s, w, "expected AS after COUNT(...)"@))
                    } else {
                        let g = after_keyword(s, w);
                        match pp_identifier(s, g, "aggregation alias"@) {
                            Err(x) => Err(x),
                            Ok((alias, h)) => Ok(
                                (AggregationV::Count { binding: bn, alias }, ws_end(s, h)),
                            ),
                        }
                    }
                }
            },
        }
    }
}

fn pp_parse_count(c: &mut Cursor) -> (r: Result<Aggregation, ParseError>)
    requires
        old(c).wf(),
    ensures
        moved(*old(c), *final(c)),
        step_ok(r, final(c).pos as int, pp_count(old(c).input@, old(c).pos as int)),
        r is Ok && peek_keyword_at(old(c).input@, old(c).pos as int) is Some ==> old(c).pos
            < final(c).pos,
{
    let ghost s = c.input@;
    proof {
        lemma_after_keyword(s, c.pos as int);
    }
    c.skip_word();
    if c.peek_char() != Some('(') {
        return Err(error_here(c, owned("expected `(` after COUNT")));
    }
    c.advance();
    proof {
        lemma_ws_end(s, c.pos as int);
    }
    c.skip_ws();
    let binding = if c.peek_char() != Some(')') {
        Some(pp_parse_identifier(c, "edge or node name")?)
    } else {
        None
    };
    proof {
        lemma_ws_end(s, c.pos as int);
    }
    c.skip_ws();
    if c.peek_char() != Some(')') {
        return Err(error_here(c, owned("expected `)` after COUNT binding")));
    }
    c.advance();
    proof {
        lemma_ws_end(s, c.pos as int);
    }
    c.skip_ws();
    if !c.keyword_is("AS") {
        return Err(error_here(c, owned("expected AS after COUNT(...)")));
    }
    proof {
        lemma_after_keyword(s, c.pos as int);
    }
    c.skip_word();
    let alias = pp_parse_identifier(c, "aggregation alias")?;
    proof {
        lemma_ws_end(s, c.pos as int);
    }
    c.skip_ws();
    Ok(Aggregation::Count { binding, alias })
}

/// `a` starts with `COUNT`, ignoring ASCII case.
pub open spec fn starts_with_count(w: Seq<char>) -> bool {
    w.len() >= 5 && seq_upper(w).take(5) == "COUNT"@
}

/// The items of a row projection from `i`: field references and
/// `COUNT` aggregations separated by commas, up to `,`, `O`, `L`, the
/// end, or a `C` that does not start `COUNT`.
pub open spec fn pp_row_items(s: Seq<char>, i: int, acc: RowAcc) -> Result<(RowAcc, int), ParseErrorV>
    decreases s.len() - i,
{
    let a = ws_end(s, i);
    if i < 0 || i > s.len() || a >= s.len() || s[a] == ',' || s[a] == 'O' || s[a] == 'L' {
        Ok((acc, a))
    } else if s[a] == 'C' {
        let kw = match peek_keyword_at(s, a) {
            Some(w) => w,
            None => Seq::empty(),
        };
        if !starts_with_count(kw) {
            Ok((acc, a))
        } else {
            match pp_count(s, a) {
                Err(e) => Err(e),
                Ok((ag, h)) => {
                    let next = RowAcc { aggregations: acc.aggregations.push(ag), ..acc };
                    if 0 <= h < s.len() && s[h] == ',' && i < h + 1 {
                        pp_row_items(s, h + 1, next)
                    } else {
                        Ok((next, h))
                    }
                },
            }
        }
    } else {
        match pp_identifier(s, a, "field or binding name"@) {
            Err(e) => Err(e),
            Ok((name, j)) => {
                let k = ws_end(s, j);
                let item = if k < s.len() && s[k] == '.' {
                    match pp_identifier(s, ws_end(s, k + 1), "field name"@) {
                        Err(e) => Err(e),
                        Ok((fld, m)) => Ok(
                            (
                                RowAcc {
                                    fields: acc.fields.push(
                                        RowFieldV::Property { binding: name, field: fld },
                                    ),
                                    group_by: acc.group_by.push(name + "."@ + fld),
                                    aggregations: acc.aggregations,
                                },
                                m,
                            ),
                        ),
                    }
                } else {
                    Ok(
                        (
                            RowAcc {
                                fields: acc.fields.push(RowFieldV::AggregationRef { name }),
                                group_by: acc.group_by.push(name),
                                aggregations: acc.aggregations,
                            },
                            k,
                        ),
                    )
                };
                match item {
                    Err(e) => Err(e),
                    Ok((next, p)) => if 0 <= p < s.len() && s[p] == ',' && i < p + 1 {
                        pp_row_items(s, p + 1, next)
                    } else {
                        Ok((next, p))
                    },
                }
            },
        }
    }
}

pub open spec fn row_acc(
    fields: Vec<RowField>,
    group_by: Vec<String>,
    aggregations: Vec<Aggregation>,
) -> RowAcc {
    RowAcc {
        fields: fields@.map_values(|f: RowField| f@),
        group_by: strings_view(group_by),
        aggregations: aggregations@.map_values(|a: Aggregation| a@),
    }
}

/// `ORDER BY name [ASC|DESC]`, when the keyword at `k` is `ORDER`.
pub open spec fn pp_order(s: Seq<char>, k: int) -> Result<(Option<OrderV>, int), ParseErrorV> {
    if !keyword_is(s, k, "ORDER"@) {
        Ok((None, k))
    } else if !keyword_is(s, after_keyword(s, k), "BY"@) {
        Err(err_at(s, after_keyword(s, k), "expected BY after ORDER"@))
    } else {
        let b = after_keyword(s, after_keyword(s, k));
        match pp_identifier(s, b, "order field"@) {
            Err(e) => Err(e),
            Ok((by, j)) => {
                let c = ws_end(s, j);
                let (direction, d) = if keyword_is(s, c, "DESC"@) {
                    (OrderDirection::Desc, after_keyword(s, c))
                } else if keyword_is(s, c, "ASC"@) {
                    (OrderDirection::Asc, after_keyword(s, c))
                } else {
                    (OrderDirection::Asc, c)
                };
                Ok((Some(OrderV { by, direction }), ws_end(s, d)))
            },
        }
    }
}

/// `LIMIT n`, when the keyword at `p` is `LIMIT`.
pub open spec fn pp_limit(s: Seq<char>, p: int) -> Result<(Option<usize>, int), ParseErrorV> {
    if !keyword_is(s, p, "LIMIT"@) {
        Ok((None, p))
    } else {
        match pp_integer(s, after_keyword(s, p)) {
            Err(e) => Err(e),
            Ok((n, j)) => Ok((Some(n as usize), j)),
        }
    }
}

/// A row projection from `i`.
pub open spec fn pp_row(s: Seq<char>, i: int) -> Result<(ProjectionV, int), ParseErrorV> {
    let empty = RowAcc { fields: Seq::empty(), group_by: Seq::empty(), aggregations: Seq::empty() };
    match pp_row_items(s, ws_end(s, i), empty) {
        Err(e) => Err(e),
        Ok((acc, k)) => match pp_order(s, k) {
            Err(e) => Err(e),
            Ok((ordering, p)) => match pp_limit(s, p) {
                Err(e) => Err(e),
                Ok((limit, q)) => Ok(
                    (
                        ProjectionV::Row {
                            fields: acc.fields,
                            group_by: acc.group_by,
                            aggregations: acc.aggregations,
                            ordering,
                            limit,
                        },
                        q,
                    ),
                ),
            },
        },
    }
}

/// `starts_with_count`, executable.
fn starts_count(w: &Vec<char>) -> (r: bool)
    ensures
        r == starts_with_count(w@),
{
    if w.len() < 5 {
        return false;
    }
    let up = upper_vec(w);
    let head = slice_chars(&up, 0, 5);
    assert(head@ =~= seq_upper(w@).take(5));
    is_lit(&head, "COUNT")
}

fn pp_parse_row(c: &mut Cursor) -> (r: Result<PatternProjection, ParseError>)
    requires
        old(c).wf(),
    ensures
        moved(*old(c), *final(c)),
        step_ok(r, final(c).pos as int, pp_row(old(c).input@, old(c).pos as int)),
{
    let ghost s = c.input@;
    proof {
        lemma_ws_end(s, c.pos as int);
    }
    c.skip_ws();
    let ghost a0 = c.pos as int;
    let mut fields: Vec<RowField> = Vec::new();
    let mut group_by: Vec<String> = Vec::new();
    let mut aggregations: Vec<Aggregation> = Vec::new();
    let ghost empty = RowAcc {
        fields: Seq::empty(),
        group_by: Seq::empty(),
        aggregations: Seq::empty(),
    };
    proof {
        assert(row_acc(fields, group_by, aggregations) =~= empty) by {
            assert(fields@.map_values(|f: RowField| f@) =~= Seq::<RowFieldV>::empty());
            assert(strings_view(group_by) =~= Seq::<Seq<char>>::empty());
            assert(aggregations@.map_values(|a: Aggregation| a@) =~= Seq::<AggregationV>::empty());
        }
        crate::moldql::cursor::lemma_ws_end_idem(s, old(c).pos as int);
    }
    loop
        invariant_except_break
            pp_row_items(s, c.pos as int, row_acc(fields, group_by, aggregations)) == pp_row_items(
                s,
                a0,
                empty,
            ),
        invariant
            c.wf(),
            c.input@ == s,
            s == old(c).input@,
            old(c).pos <= a0 <= c.pos <= s.len(),
            a0 == ws_end(s, old(c).pos as int),
            empty == (RowAcc {
                fields: Seq::empty(),
                group_by: Seq::empty(),
                aggregations: Seq::empty(),
            }),
        ensures
            c.wf(),
            c.input@ == s,
            old(c).pos <= a0 <= c.pos <= s.len(),
            pp_row_items(s, a0, empty) == Ok::<(RowAcc, int), ParseErrorV>(
                (row_acc(fields, group_by, aggregations), c.pos as int),
            ),
        decreases s.len() - c.pos,
    {
        let ghost i = c.pos as int;
        let ghost acc = row_acc(fields, group_by, aggregations);
        proof {
            lemma_ws_end(s, i);
        }
        c.skip_ws();
        let ch = c.peek_char();
        if ch == Some(',') || ch == Some('O') || ch == Some('L') || ch.is_none() {
            break;
        }
        if ch == Some('C') {
            let starts = match c.peek_keyword_chars() {
                Some(w) => starts_count(&w),
                None => false,
            };
            if !starts {
                break;
            }
            let ag = pp_parse_count(c)?;
            let ghost before = aggregations@.map_values(|a: Aggregation| a@);
            aggregations.push(ag);
            proof {
                assert(aggregations@.map_values(|a: Aggregation| a@) =~= before.push(ag@));
            }
        } else {
            let name = pp_parse_identifier(c, "field or binding name")?;
            proof {
                lemma_ws_end(s, c.pos as int);
            }
            c.skip_ws();
            let ghost bf = fields@.map_values(|f: RowField| f@);
            let ghost bg = strings_view(group_by);
            if c.peek_char() == Some('.') {
                c.advance();
                proof {
                    lemma_ws_end(s, c.pos as int);
                }
                c.skip_ws();
                let field = pp_parse_identifier(c, "field name")?;
                let mut key = concat(name.as_str(), ".");
                append(&mut key, field.as_str());
                let ghost fv = RowFieldV::Property { binding: name@, field: field@ };
                fields.push(RowField::Property { binding: name, field });
                group_by.push(key);
                proof {
                    assert(fields@.map_values(|f: RowField| f@) =~= bf.push(fv));
                    assert(strings_view(group_by) =~= bg.push(key@));
                }
            } else {
                let copy = owned(name.as_str());
                fields.push(RowField::AggregationRef { name: copy });
                group_by.push(name);
                proof {
                    assert(fields@.map_values(|f: RowField| f@) =~= bf.push(
                        RowFieldV::AggregationRef { name: name@ },
                    ));
                    assert(strings_view(group_by) =~= bg.push(name@));
                }
            }
        }
        if c.peek_char() == Some(',') {
            c.advance();
        } else {
            break;
        }
    }
    let ghost k = c.pos as int;
    let ordering = if c.keyword_is("ORDER") {
        proof {
            lemma_after_keyword(s, c.pos as int);
        }
        c.skip_word();
        if !c.keyword_is("BY") {
            return Err(error_here(c, owned("expected BY after ORDER")));
        }
        proof {
            lemma_after_keyword(s, c.pos as int);
        }
        c.skip_word();
        let by = pp_parse_identifier(c, "order field")?;
        proof {
            lemma_ws_end(s, c.pos as int);
        }
        c.skip_ws();
        let direction = if c.keyword_is("DESC") {
            proof {
                lemma_after_keyword(s, c.pos as int);
            }
            c.skip_word();
            OrderDirection::Desc
        } else {
            if c.keyword_is("ASC") {
                proof {
                    lemma_after_keyword(s, c.pos as int);
                }
                c.skip_word();
            }
            OrderDirection::Asc
        };
        proof {
            lemma_ws_end(s, c.pos as int);
        }
        c.skip_ws();
        Some(OrderClause { by, direction })
    } else {
        None
    };
    let limit = if c.keyword_is("LIMIT") {
        proof {
            lemma_after_keyword(s, c.pos as int);
        }
        c.skip_word();
        let n = pp_parse_integer(c)?;
        Some(n as usize)
    } else {
        None
    };
    Ok(PatternProjection::Row { fields, group_by, aggregations, ordering, limit })
}

/// What `RETURN` projects, from just after the keyword.
pub open spec fn pp_projection(s: Seq<char>, i: int) -> Result<(ProjectionV, int), ParseErrorV> {
    let a = ws_end(s, i);
    match peek_keyword_at(s, a) {
        None => Err(err_at(s, a, "expected RETURN followed by PATH, NODE, EDGE, or field list"@)),
        Some(_) => if keyword_is(s, a, "PATH"@) {
            match pp_list(s, after_keyword(s, a)) {
                Err(e) => Err(e),
                Ok((xs, j)) => Ok((ProjectionV::Path(xs), j)),
            }
        } else if keyword_is(s, a, "NODE"@) {
            match pp_single(s, after_keyword(s, a), "NODE"@) {
                Err(e) => Err(e),
                Ok((x, j)) => Ok((ProjectionV::Node(x), j)),
            }
        } else if keyword_is(s, a, "EDGE"@) {
            match pp_single(s, after_keyword(s, a), "EDGE"@) {
                Err(e) => Err(e),
                Ok((x, j)) => Ok((ProjectionV::Edge(x), j)),
            }
        } else {
            pp_row(s, a)
        },
    }
}

fn pp_parse_projection(c: &mut Cursor) -> (r: Result<PatternProjection, ParseError>)
    requires
        old(c).wf(),
    ensures
        moved(*old(c), *final(c)),
        step_ok(r, final(c).pos as int, pp_projection(old(c).input@, old(c).pos as int)),
{
    let ghost s = c.input@;
    proof {
        lemma_ws_end(s, c.pos as int);
    }
    c.skip_ws();
    if c.peek_keyword_chars().is_none() {
        return Err(
            error_here(c, owned("expected RETURN followed by PATH, NODE, EDGE, or field list")),
        );
    }
    proof {
        lemma_after_keyword(s, c.pos as int);
    }
    if c.keyword_is("PATH") {
        c.skip_word();
        let bindings = pp_parse_list(c)?;
        Ok(PatternProjection::Path { bindings })
    } else if c.keyword_is("NODE") {
        c.skip_word();
        let binding = pp_parse_single(c, "NODE")?;
        Ok(PatternProjection::Node { binding })
    } else if c.keyword_is("EDGE") {
        c.skip_word();
        let binding = pp_parse_single(c, "EDGE")?;
        Ok(PatternProjection::Edge { binding })
    } else {
        pp_parse_row(c)
    }
}

// ---------------------------------------------------------------------------
// The query
// ---------------------------------------------------------------------------

/// The names of the named bindings, in order: the default projection.
pub open spec fn binding_names(bs: Seq<BindingV>) -> Seq<Seq<char>>
    decreases bs.len(),
{
    if bs.len() == 0 {
        Seq::empty()
    } else {
        let r = binding_names(bs.drop_last());
        match bs.last().name {
            Some(n) => r.push(n),
            None => r,
        }
    }
}

fn names_of(bindings: &Vec<Binding>) -> (r: Vec<String>)
    ensures
        strings_view(r) == binding_names(bindings@.map_values(|b: Binding| b@)),
{
    let mut r: Vec<String> = Vec::new();
    let mut i: usize = 0;
    let ghost bv = bindings@.map_values(|b: Binding| b@);
    assert(strings_view(r) =~= Seq::<Seq<char>>::empty());
    assert(bv.take(0) =~= Seq::<BindingV>::empty());
    while i < bindings.len()
        invariant
            i <= bindings.len(),
            bv == bindings@.map_values(|b: Binding| b@),
            strings_view(r) == binding_names(bv.take(i as int)),
        decreases bindings.len() - i,
    {
        assert(bv.take(i + 1).drop_last() =~= bv.take(i as int));
        let ghost before = strings_view(r);
        match &bindings[i].name {
            Some(n) => {
                r.push(owned(n.as_str()));
                assert(strings_view(r) =~= before.push(n@));
            },
            None => {},
        }
        i = i + 1;
    }
    assert(bv.take(bindings.len() as int) =~= bv);
    r
}

/// `[SHORTEST] MATCH pattern [WHERE ...] [RETURN ...]` from `i`.
pub open spec fn pp_pattern(s: Seq<char>, i: int) -> Result<(PatternV, int), ParseErrorV> {
    let a = ws_end(s, i);
    let shortest = keyword_is(s, a, "SHORTEST"@);
    let b = if shortest {
        after_keyword(s, a)
    } else {
        a
    };
    match peek_keyword_at(s, b) {
        None => Err(err_at(s, b, "expected MATCH"@)),
        Some(w) => if !keyword_is(s, b, "MATCH"@) {
            Err(err_at(s, b, "expected MATCH, found `"@ + w + "`"@))
        } else {
            match pp_node(s, after_keyword(s, b)) {
                Err(e) => Err(e),
                Ok((n1, j)) => match pp_chain(s, ws_end(s, j), seq![n1], Seq::empty()) {
                    Err(e) => Err(e),
                    Ok(((bs, es), k)) => {
                        let preds = if keyword_is(s, k, "WHERE"@) {
                            pp_predicates(s, after_keyword(s, k))
                        } else {
                            Ok((Seq::<PredicateV>::empty(), k))
                        };
                        match preds {
                            Err(e) => Err(e),
                            Ok((ps, m)) => {
                                let proj = if keyword_is(s, m, "RETURN"@) {
                                    pp_projection(s, after_keyword(s, m))
                                } else {
                                    Ok((ProjectionV::Path(binding_names(bs)), m))
                                };
                                match proj {
                                    Err(e) => Err(e),
                                    Ok((pj, q)) => Ok(
                                        (
                                            PatternV {
                                                shortest,
                                                bindings: bs,
                                                edges: es,
                                                predicates: ps,
                                                projection: pj,
                                            },
                                            q,
                                        ),
                                    ),
                                }
                            },
                        }
                    },
                },
            }
        },
    }
}

fn pp_parse_pattern(c: &mut Cursor) -> (r: Result<PatternQuery, ParseError>)
    requires
        old(c).wf(),
    ensures
        moved(*old(c), *final(c)),
        step_ok(r, final(c).pos as int, pp_pattern(old(c).input@, old(c).pos as int)),
{
    let ghost s = c.input@;
    proof {
        lemma_ws_end(s, c.pos as int);
    }
    c.skip_ws();
    let shortest = c.keyword_is("SHORTEST");
    if shortest {
        proof {
            lemma_after_keyword(s, c.pos as int);
        }
        c.skip_word();
    }
    let w = match c.peek_keyword_chars() {
        Some(w) => w,
        None => {
            return Err(error_here(c, owned("expected MATCH")));
        },
    };
    if !c.keyword_is("MATCH") {
        return Err(error_here(c, concat3("expected MATCH, found `", &w, "`")));
    }
    proof {
        lemma_after_keyword(s, c.pos as int);
    }
    c.skip_word();
    let first = pp_parse_node(c)?;
    proof {
        lemma_ws_end(s, c.pos as int);
    }
    c.skip_ws();
    let ghost k0 = c.pos as int;
    let ghost n1 = first@;
    let mut bindings: Vec<Binding> = Vec::new();
    bindings.push(first);
    let mut edges: Vec<EdgePattern> = Vec::new();
    proof {
        assert(bindings@.map_values(|b: Binding| b@) =~= seq![n1]);
        assert(edges@.map_values(|e: EdgePattern| e@) =~= Seq::<EdgeV>::empty());
    }
    loop
        invariant_except_break
            pp_chain(
                s,
                c.pos as int,
                bindings@.map_values(|b: Binding| b@),
                edges@.map_values(|e: EdgePattern| e@),
            ) == pp_chain(s, k0, seq![n1], Seq::empty()),
        invariant
            c.wf(),
            c.input@ == s,
            s == old(c).input@,
            old(c).pos <= k0 <= c.pos <= s.len(),
            match pp_chain(s, k0, seq![n1], Seq::empty()) {
                Err(e) => pp_pattern(s, old(c).pos as int) == Err::<(PatternV, int), ParseErrorV>(
                    e,
                ),
                Ok(_) => true,
            },
        ensures
            c.wf(),
            c.input@ == s,
            old(c).pos <= c.pos <= s.len(),
            pp_chain(s, k0, seq![n1], Seq::empty()) == Ok::<
                ((Seq<BindingV>, Seq<EdgeV>), int),
                ParseErrorV,
            >(
                (
                    (bindings@.map_values(|b: Binding| b@), edges@.map_values(|e: EdgePattern| e@)),
                    c.pos as int,
                ),
            ),
        decreases s.len() - c.pos,
    {
        let ghost i = c.pos as int;
        let ch = match c.peek_char() {
            Some(ch) => ch,
            None => {
                break;
            },
        };
        proof {
            lemma_ws_end(s, i);
        }
        c.skip_ws();
        if ch == ')' || ch == 'W' || ch == 'w' || ch == 'R' || ch == 'r' {
            break;
        }
        if ch != '-' {
            let mut one: Vec<char> = Vec::new();
            one.push(ch);
            return Err(error_here(c, concat3("expected `-` to start edge, found `", &one, "`")));
        }
        c.advance();
        proof {
            lemma_ws_end(s, c.pos as int);
        }
        c.skip_ws();
        if c.peek_char() != Some('[') {
            return Err(error_here(c, owned("expected edge pattern `[...]` after `-`")));
        }
        let (e, n) = pp_parse_step(c)?;
        proof {
            lemma_ws_end(s, c.pos as int);
        }
        c.skip_ws();
        let ghost bb = bindings@.map_values(|b: Binding| b@);
        let ghost be = edges@.map_values(|e: EdgePattern| e@);
        let ghost ev = e@;
        let ghost nv = n@;
        edges.push(e);
        bindings.push(n);
        proof {
            assert(bindings@.map_values(|b: Binding| b@) =~= bb.push(nv));
            assert(edges@.map_values(|e: EdgePattern| e@) =~= be.push(ev));
        }
    }
    let ghost k = c.pos as int;
    let predicates = if c.keyword_is("WHERE") {
        proof {
            lemma_after_keyword(s, c.pos as int);
        }
        c.skip_word();
        pp_parse_predicates(c)?
    } else {
        let v: Vec<PatternPredicate> = Vec::new();
        assert(v@.map_values(|p: PatternPredicate| p@) =~= Seq::<PredicateV>::empty());
        v
    };
    let projection = if c.keyword_is("RETURN") {
        proof {
            lemma_after_keyword(s, c.pos as int);
        }
        c.skip_word();
        pp_parse_projection(c)?
    } else {
        PatternProjection::Path { bindings: names_of(&bindings) }
    };
    Ok(PatternQuery { shortest, bindings, edges, predicates, projection })
}

/// A whole Pattern Profile query: a pattern with nothing but whitespace
/// after it.
pub open spec fn pattern_spec(s: Seq<char>) -> Result<QueryV, ParseErrorV> {
    match pp_pattern(s, ws_end(s, 0)) {
        Err(e) => Err(e),
        Ok((p, j)) => {
            let k = ws_end(s, j);
            if k < s.len() {
                Err(err_at(s, k, "unexpected trailing input: `"@ + remaining_at(s, k) + "`"@))
            } else {
                Ok(QueryV::Pattern(p))
            }
        },
    }
}

/// Parses a Pattern Profile query.
pub fn parse_pattern_query_from_str(input: &str) -> (r: Result<MoldQLQuery, ParseError>)
    requires
        input@.len() <= max_query_len(),
    ensures
        match (r, pattern_spec(input@)) {
            (Ok(q), Ok(v)) => q@ == v,
            (Err(e), Err(ev)) => e@ == ev,
            _ => false,
        },
{
    let mut c = Cursor::new(input);
    proof {
        lemma_ws_end(c.input@, 0);
    }
    c.skip_ws();
    let q = pp_parse_pattern(&mut c)?;
    proof {
        lemma_ws_end(c.input@, c.pos as int);
    }
    c.skip_ws();
    if !c.is_eof() {
        let rest = c.remaining();
        let mut m = owned("unexpected trailing input: `");
        append(&mut m, rest.as_str());
        append(&mut m, "`");
        return Err(error_here(&c, m));
    }
    Ok(MoldQLQuery::Pattern(q))
}


/// The operator a pattern predicate reads is the one written: the text that
/// `pp_op` consumes is the symbol of the operator it gives (`=` alone also
/// spells equality), and the query parser reads the same text as the same
/// comparison, ending at the same place.
pub proof fn law_pattern_op_is_the_one_written(s: Seq<char>, i: int)
    ensures
        pp_op(s, i) matches Ok((o, j)) ==> s.subrange(i, j) == op_symbol(pattern_op_as_op(o))
            || (o == PatternOp::Eq && s.subrange(i, j) == "="@),
        pp_op(s, i) matches Ok((o, j)) ==> p_op(s, i) == Ok::<(Op, int), ParseErrorV>(
            (pattern_op_as_op(o), j),
        ),
{
    reveal_strlit(">");
    reveal_strlit(">=");
    reveal_strlit("<");
    reveal_strlit("<=");
    reveal_strlit("==");
    reveal_strlit("!=");
    reveal_strlit("=");
    if let Ok((o, j)) = pp_op(s, i) {
        if j == i + 1 {
            assert(s.subrange(i, j) =~= seq![s[i]]);
        } else {
            assert(s.subrange(i, j) =~= seq![s[i], s[i + 1]]);
        }
    }
}

/// Every comparison symbol is read as its own operator: where the text at
/// `i` spells the symbol of `o` (a one-character symbol not followed by
/// `=`), `pp_op` gives `o` and moves past the symbol.
pub proof fn law_pattern_op_reads_each_symbol(s: Seq<char>, i: int, o: PatternOp)
    requires
        0 <= i,
        i + op_symbol(pattern_op_as_op(o)).len() <= s.len(),
        s.subrange(i, i + op_symbol(pattern_op_as_op(o)).len()) == op_symbol(pattern_op_as_op(o)),
        op_symbol(pattern_op_as_op(o)).len() == 1 ==> !(i + 1 < s.len() && s[i + 1] == '='),
    ensures
        pp_op(s, i) == Ok::<(PatternOp, int), ParseErrorV>(
            (o, i + op_symbol(pattern_op_as_op(o)).len()),
        ),
{
    reveal_strlit(">");
    reveal_strlit(">=");
    reveal_strlit("<");
    reveal_strlit("<=");
    reveal_strlit("==");
    reveal_strlit("!=");
    let sym = op_symbol(pattern_op_as_op(o));
    assert(s[i] == s.subrange(i, i + sym.len())[0]);
    if sym.len() == 2 {
        assert(s[i + 1] == s.subrange(i, i + sym.len())[1]);
    }
}

} // verus!
