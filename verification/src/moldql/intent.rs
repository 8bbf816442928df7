//! Lowering of lowercase intent queries to MoldQL.
//!
//! Three lowercase shapes are recognised, each by a regular expression:
//!
//! - `symbols where <condition>` becomes `FIND symbols WHERE <condition>`;
//! - `calls from '<id>' [depth N]` becomes
//!   `EXPLORE <id> THROUGH callees DEPTH N` (depth 1 by default, and when
//!   `N` is not a `u32`);
//! - `[shortest ]match ...` goes straight to the Pattern Profile parser,
//!   unless it holds a mutating keyword.
//!
//! Anything else is left to the canonical parser (`None`).

use vstd::prelude::*;
use crate::text::{concat, append, chars_of, lower_vec, seq_lower, u64_to_string, decimal, is_digit, spec_is_digit};
use crate::number::{all_digits, digits_value, digit_value};
use crate::moldql::ast::{MoldQLQuery, QueryV};
use crate::moldql::cursor::max_query_len;
use crate::moldql::parser::{parse, parse_spec, ParseError, ParseErrorV};
use crate::moldql::parser_pattern_profile::{parse_pattern_query_from_str, pattern_spec};

verus! {

/// `symbols where <condition>`; group 1 is the condition.
pub const SYMBOLS_WHERE_PATTERN: &'static str = "^symbols\\s+where\\s+(.+)$";

/// `calls from '<id>' [depth N]`; group 1 is the id, group 2 the depth.
pub const CALLS_FROM_PATTERN: &'static str = "^calls\\s+from\\s+['\"]?([^'\"\\s]+)['\"]?(?:\\s+depth\\s+(\\d+))?$";

/// A lowercase Pattern Profile query: `match ` or `shortest match ` first.
pub const PATTERN_PROFILE_PATTERN: &'static str = "^(?:shortest\\s+)?match\\s+";

/// Longest query the lowering accepts: room is left for the keywords it
/// adds.
pub open spec fn max_intent_len() -> int {
    max_query_len() - 64
}

/// The capture groups of the first match of `pattern` in `text`, each
/// `None` when its group took no part in the match; `None` when there is
/// no match or the pattern does not compile.
pub uninterp spec fn regex_captures_of(pattern: Seq<char>, text: Seq<char>) -> Option<
    Seq<Option<Seq<char>>>,
>;

/// The view of a capture result.
pub open spec fn captures_view(c: Option<Vec<Option<String>>>) -> Option<Seq<Option<Seq<char>>>> {
    match c {
        Some(g) => Some(g@.map_values(|x: Option<String>| match x {
            Some(s) => Some(s@),
            None => None,
        })),
        None => None,
    }
}

/// Every captured text is no longer than `n`.
pub open spec fn captures_within(c: Option<Seq<Option<Seq<char>>>>, n: int) -> bool {
    match c {
        Some(g) => forall|i: int| 0 <= i < g.len() ==> (#[trigger] g[i] matches Some(t) ==> t.len() <= n),
        None => true,
    }
}

/// Compiles `pattern` with `regex::Regex::new` and runs
/// `Regex::captures` on `text`. The contract claims that the result is a
/// function of the pattern and the text; that a match always holds group
/// 0, the whole match; and that every captured text, a piece of `text`,
/// is no longer than `text`. A pattern that fails to compile gives
/// `None`.
#[verifier::external_body]
fn regex_captures(pattern: &str, text: &str) -> (r: Option<Vec<Option<String>>>)
    ensures
        captures_view(r) == regex_captures_of(pattern@, text@),
        r matches Some(g) ==> g.len() >= 1 && g@[0] is Some,
        captures_within(captures_view(r), text@.len() as int),
{
    let re = match regex::Regex::new(pattern) {
        Ok(re) => re,
        Err(_) => return None,
    };
    let caps = re.captures(text)?;
    let mut groups = Vec::new();
    for m in caps.iter() {
        groups.push(match m {
            Some(m) => Some(m.as_str().to_string()),
            None => None,
        });
    }
    Some(groups)
}

/// Group `i` of a capture result, when the pattern matched and the group
/// took part.
pub open spec fn group(c: Option<Seq<Option<Seq<char>>>>, i: int) -> Option<Seq<char>> {
    match c {
        Some(g) => if 0 <= i < g.len() {
            g[i]
        } else {
            None
        },
        None => None,
    }
}

/// `str::parse::<u32>`: an optional `+`, then one or more ASCII digits
/// whose value fits.
pub open spec fn u32_of(s: Seq<char>) -> Option<u32> {
    let d = unsigned_part(s);
    if d.len() > 0 && all_digits(d) && digits_value(d) <= u32::MAX {
        Some(digits_value(d) as u32)
    } else {
        None
    }
}

/// The text after an optional leading `+`.
pub open spec fn unsigned_part(s: Seq<char>) -> Seq<char> {
    if s.len() > 0 && s[0] == '+' {
        s.subrange(1, s.len() as int)
    } else {
        s
    }
}

/// The depth of a `calls from` query: the captured number, else 1.
pub open spec fn depth_of(g: Option<Seq<char>>) -> u32 {
    match g {
        Some(t) => match u32_of(t) {
            Some(v) => v,
            None => 1,
        },
        None => 1,
    }
}

/// `s` holds `k` somewhere.
pub open spec fn holds(s: Seq<char>, k: Seq<char>) -> bool {
    exists|i: int| 0 <= i && i + k.len() <= s.len() && #[trigger] s.subrange(i, i + k.len()) == k
}

/// The keywords of mutating clauses, each with its trailing space.
pub open spec fn mutation_keywords() -> Seq<Seq<char>> {
    seq!["create "@, "delete "@, "set "@, "merge "@, "detach "@, "remove "@]
}

/// The lower-cased query holds a mutating keyword.
pub open spec fn mutates(query: Seq<char>) -> bool {
    exists|j: int| 0 <= j < mutation_keywords().len() && holds(seq_lower(query), #[trigger] mutation_keywords()[j])
}

/// The lowering, given what the three patterns captured.
pub open spec fn lowered(
    query: Seq<char>,
    symbols_where: Option<Seq<Option<Seq<char>>>>,
    calls_from: Option<Seq<Option<Seq<char>>>>,
    pattern_head: Option<Seq<Option<Seq<char>>>>,
) -> Option<Result<QueryV, ParseErrorV>> {
    match group(symbols_where, 1) {
        Some(c) => Some(parse_spec("FIND symbols WHERE "@ + c)),
        None => match group(calls_from, 1) {
            Some(id) => Some(
                parse_spec(
                    "EXPLORE "@ + id + " THROUGH callees DEPTH "@ + decimal(
                        depth_of(group(calls_from, 2)) as nat,
                    ),
                ),
            ),
            None => if pattern_head is Some && !mutates(query) {
                Some(pattern_spec(query))
            } else {
                None
            },
        },
    }
}

/// The view of a lowering result.
pub open spec fn lowering_view(r: Option<Result<MoldQLQuery, ParseError>>) -> Option<
    Result<QueryV, ParseErrorV>,
> {
    match r {
        Some(Ok(q)) => Some(Ok(q@)),
        Some(Err(e)) => Some(Err(e@)),
        None => None,
    }
}

fn captured(c: &Option<Vec<Option<String>>>, i: usize) -> (r: Option<&String>)
    ensures
        match r {
            Some(s) => group(captures_view(*c), i as int) == Some(s@),
            None => group(captures_view(*c), i as int) is None,
        },
{
    match c {
        Some(g) => if i < g.len() {
            match &g[i] {
                Some(s) => Some(s),
                None => None,
            }
        } else {
            None
        },
        None => None,
    }
}

/// `str::parse::<u32>`.
pub fn parse_u32(s: &str) -> (r: Option<u32>)
    ensures
        r == u32_of(s@),
{
    let c = chars_of(s);
    let start: usize = if c.len() > 0 && c[0] == '+' {
        1
    } else {
        0
    };
    let ghost d = c@.subrange(start as int, c@.len() as int);
    assert(d =~= unsigned_part(s@));
    if start >= c.len() {
        return None;
    }
    let mut v: u64 = 0;
    let mut i: usize = start;
    while i < c.len()
        invariant
            start <= i <= c.len(),
            c@ == s@,
            d == c@.subrange(start as int, c@.len() as int),
            d == unsigned_part(s@),
            all_digits(d.subrange(0, i - start)),
            v == digits_value(d.subrange(0, i - start)),
            v <= u32::MAX,
        decreases c.len() - i,
    {
        let ghost k: int = i - start;
        assert(d[k] == c@[i as int]);
        if !is_digit(c[i]) {
            assert(!all_digits(d));
            assert(u32_of(s@) is None);
            return None;
        }
        let ghost p = d.subrange(0, k + 1);
        assert(p.drop_last() =~= d.subrange(0, k));
        assert(p.last() == c@[i as int]);
        let nv: u64 = v * 10 + (c[i] as u64 - '0' as u64);
        assert(nv == digits_value(p));
        if nv > 0xFFFF_FFFF {
            proof {
                lemma_digits_value_grows(d, k + 1);
                assert(digits_value(d) > u32::MAX);
                assert(u32_of(s@) is None);
            }
            return None;
        }
        assert(all_digits(p)) by {
            assert forall|m: int| 0 <= m < p.len() implies spec_is_digit(#[trigger] p[m]) by {
                if m < k {
                    assert(p[m] == d.subrange(0, k)[m]);
                }
            }
        }
        v = nv;
        i = i + 1;
    }
    assert(d.subrange(0, d.len() as int) =~= d);
    Some(v as u32)
}

/// A prefix's value never exceeds the value of the whole digit run.
proof fn lemma_digits_value_grows(d: Seq<char>, k: int)
    requires
        0 <= k <= d.len(),
    ensures
        digits_value(d.subrange(0, k)) <= digits_value(d),
    decreases d.len() - k,
{
    if k < d.len() {
        lemma_digits_value_grows(d, k + 1);
        let p = d.subrange(0, k + 1);
        assert(p.drop_last() =~= d.subrange(0, k));
        assert(digits_value(p) == digits_value(p.drop_last()) * 10 + digit_value(p.last()));
    } else {
        assert(d.subrange(0, k) =~= d);
    }
}

fn holds_text(s: &Vec<char>, k: &str) -> (r: bool)
    ensures
        r == holds(s@, k@),
{
    let kc = chars_of(k);
    let n = kc.len();
    if n > s.len() {
        return false;
    }
    let mut i: usize = 0;
    while i <= s.len() - n
        invariant
            n == kc@.len(),
            kc@ == k@,
            n <= s.len(),
            i <= s.len() - n + 1,
            forall|a: int| 0 <= a < i ==> #[trigger] s@.subrange(a, a + n) != kc@,
        decreases s.len() - n + 1 - i,
    {
        let mut j: usize = 0;
        let mut same = true;
        assert(s@.subrange(i as int, i as int) =~= kc@.subrange(0, 0));
        while j < n
            invariant
                j <= n,
                i + n <= s.len(),
                n == kc@.len(),
                same == (s@.subrange(i as int, i + j) == kc@.subrange(0, j as int)),
            decreases n - j,
        {
            assert(s@.subrange(i as int, i + j + 1) =~= s@.subrange(i as int, i + j).push(s@[i + j]));
            assert(kc@.subrange(0, j + 1) =~= kc@.subrange(0, j as int).push(kc@[j as int]));
            if same && s[i + j] != kc[j] {
                same = false;
                assert(s@.subrange(i as int, i + j + 1).last() != kc@.subrange(0, j + 1).last());
            } else if !same {
                assert(s@.subrange(i as int, i + j + 1).drop_last() =~= s@.subrange(i as int, i + j));
                assert(kc@.subrange(0, j + 1).drop_last() =~= kc@.subrange(0, j as int));
            }
            j = j + 1;
        }
        assert(kc@.subrange(0, n as int) =~= kc@);
        if same {
            assert(s@.subrange(i as int, i as int + k@.len()) == k@);
            return true;
        }
        i = i + 1;
    }
    false
}

fn mutates_text(query: &str) -> (r: bool)
    ensures
        r == mutates(query@),
{
    let lower = lower_vec(&chars_of(query));
    let keys: [&str; 6] = ["create ", "delete ", "set ", "merge ", "detach ", "remove "];
    let mut j: usize = 0;
    while j < 6
        invariant
            j <= 6,
            lower@ == seq_lower(query@),
            keys@.len() == 6,
            forall|m: int| 0 <= m < 6 ==> #[trigger] keys@[m]@ == mutation_keywords()[m],
            forall|m: int| 0 <= m < j ==> !holds(lower@, #[trigger] mutation_keywords()[m]),
        decreases 6 - j,
    {
        if holds_text(&lower, keys[j]) {
            return true;
        }
        j = j + 1;
    }
    false
}

proof fn lemma_group_within(c: Option<Seq<Option<Seq<char>>>>, i: int, n: int)
    requires
        captures_within(c, n),
        group(c, i) is Some,
    ensures
        group(c, i)->0.len() <= n,
{
    let g = c->0;
    assert(g[i] matches Some(t) ==> t.len() <= n);
}

#[verifier::rlimit(100)]
#[verifier::spinoff_prover]
fn lower_symbols_where(c: &str) -> (r: Result<MoldQLQuery, ParseError>)
    requires
        c@.len() <= max_intent_len(),
    ensures
        match (r, parse_spec("FIND symbols WHERE "@ + c@)) {
            (Ok(q), Ok(v)) => q@ == v,
            (Err(e), Err(ev)) => e@ == ev,
            _ => false,
        },
{
    let rewritten = concat("FIND symbols WHERE ", c);
    proof {
        reveal_strlit("FIND symbols WHERE ");
    }
    parse(rewritten.as_str())
}

#[verifier::rlimit(100)]
#[verifier::spinoff_prover]
fn lower_calls_from(id: &str, depth: u32) -> (r: Result<MoldQLQuery, ParseError>)
    requires
        id@.len() <= max_intent_len(),
    ensures
        match (r, parse_spec("EXPLORE "@ + id@ + " THROUGH callees DEPTH "@ + decimal(depth as nat))) {
            (Ok(q), Ok(v)) => q@ == v,
            (Err(e), Err(ev)) => e@ == ev,
            _ => false,
        },
{
    let mut rewritten = concat("EXPLORE ", id);
    append(&mut rewritten, " THROUGH callees DEPTH ");
    proof {
        reveal_strlit("EXPLORE ");
        reveal_strlit(" THROUGH callees DEPTH ");
    }
    let d = u64_to_string(depth as u64);
    proof {
        crate::text::lemma_decimal_len_u32(depth);
    }
    append(&mut rewritten, d.as_str());
    parse(rewritten.as_str())
}

fn depth_text(t: Option<&String>) -> (r: u32)
    ensures
        r == depth_of(
            match t {
                Some(s) => Some(s@),
                None => None,
            },
        ),
{
    match t {
        Some(s) => match parse_u32(s.as_str()) {
            Some(v) => v,
            None => 1,
        },
        None => 1,
    }
}

/// The lowering, given what the three patterns captured in `query`:
/// `symbols_where` by [`SYMBOLS_WHERE_PATTERN`], `calls_from` by
/// [`CALLS_FROM_PATTERN`] and `pattern_head` by
/// [`PATTERN_PROFILE_PATTERN`].
pub fn lower_captured(
    query: &str,
    symbols_where: Option<Vec<Option<String>>>,
    calls_from: Option<Vec<Option<String>>>,
    pattern_head: Option<Vec<Option<String>>>,
) -> (r: Option<Result<MoldQLQuery, ParseError>>)
    requires
        query@.len() <= max_intent_len(),
        captures_within(captures_view(symbols_where), max_intent_len()),
        captures_within(captures_view(calls_from), max_intent_len()),
    ensures
        lowering_view(r) == lowered(
            query@,
            captures_view(symbols_where),
            captures_view(calls_from),
            captures_view(pattern_head),
        ),
{
    match captured(&symbols_where, 1) {
        Some(c) => {
            proof {
                lemma_group_within(captures_view(symbols_where), 1, max_intent_len());
            }
            return Some(lower_symbols_where(c.as_str()));
        },
        None => {},
    }
    match captured(&calls_from, 1) {
        Some(id) => {
            proof {
                lemma_group_within(captures_view(calls_from), 1, max_intent_len());
            }
            let depth = depth_text(captured(&calls_from, 2));
            return Some(lower_calls_from(id.as_str(), depth));
        },
        None => {},
    }
    if pattern_head.is_some() && !mutates_text(query) {
        Some(parse_pattern_query_from_str(query))
    } else {
        None
    }
}

/// Lowers a lowercase intent query to MoldQL: `Some` with the parse of
/// the rewritten query when a lowercase shape matches, `None` to leave
/// the query to the canonical parser.
pub fn lower_intent(query: &str) -> (r: Option<Result<MoldQLQuery, ParseError>>)
    requires
        query@.len() <= max_intent_len(),
    ensures
        lowering_view(r) == lowered(
            query@,
            regex_captures_of(SYMBOLS_WHERE_PATTERN@, query@),
            regex_captures_of(CALLS_FROM_PATTERN@, query@),
            regex_captures_of(PATTERN_PROFILE_PATTERN@, query@),
        ),
{
    let symbols_where = regex_captures(SYMBOLS_WHERE_PATTERN, query);
    let calls_from = regex_captures(CALLS_FROM_PATTERN, query);
    let pattern_head = regex_captures(PATTERN_PROFILE_PATTERN, query);
    lower_captured(query, symbols_where, calls_from, pattern_head)
}

} // verus!
