//! The result envelope of a MoldQL query, and the canonical text a
//! result echoes back for the query that produced it.

use vstd::prelude::*;
use crate::text::{concat, append, u64_to_string, decimal};
use crate::views::InspectableObjectType;
use crate::moldql::ast::{
    Condition, ConditionV, Direction, ExploreQuery, ExploreV, FindQuery, FindV,
    ValueV, Value, op_symbol, target_keyword,
};
use crate::moldql::compile::dotted;
use crate::moldql::cursor::{StopSet, is_stop, lemma_scan_to_stops_at};
use crate::moldql::parser::{ParseErrorV, p_explore_direction};
use crate::text::{seq_lower, spec_lower};

verus! {

/// The result of a MoldQL query: the matched items, the query echoed back
/// in canonical form, and the number of matches.
#[derive(Debug, Clone)]
pub struct MoldQLResult {
    pub query: String,
    pub items: Vec<MoldQLItem>,
    pub total: usize,
}

/// One matched object, with the output of a lens when the query asked
/// for one.
#[derive(Debug, Clone)]
pub struct MoldQLItem {
    pub object_id: String,
    pub object_type: InspectableObjectType,
    pub label: String,
    /// `Some` when an `APPLY <lens>` clause was given: `<lens_id>:
    /// <summary>`, or just `<lens_id>` when the lens found nothing or
    /// failed.
    pub detail: Option<String>,
}

impl MoldQLResult {
    /// A result holding `items`, their count as `total`.
    pub fn of(query: String, items: Vec<MoldQLItem>) -> (r: Self)
        ensures
            r.query@ == query@,
            r.items@ == items@,
            r.total == items.len(),
    {
        let total = items.len();
        MoldQLResult { query, items, total }
    }
}

/// A condition in canonical form: `<field> <op> <value>`, a string value
/// in double quotes.
pub open spec fn condition_text(c: ConditionV) -> Seq<char> {
    dotted(c.field) + " "@ + op_symbol(c.op) + " "@ + match c.value {
        ValueV::Number(n) => n,
        ValueV::Str(s) => "\""@ + s + "\""@,
    }
}

/// Conditions in canonical form joined with ` AND `.
pub open spec fn conditions_text(cs: Seq<ConditionV>) -> Seq<char>
    decreases cs.len(),
{
    if cs.len() == 0 {
        Seq::empty()
    } else if cs.len() == 1 {
        condition_text(cs[0])
    } else {
        conditions_text(cs.drop_last()) + " AND "@ + condition_text(cs.last())
    }
}

/// A FIND query in canonical form.
pub open spec fn find_text(f: FindV) -> Seq<char> {
    "FIND "@ + target_keyword(f.target) + match f.scope {
        Some(s) => " IN SCOPE "@ + s,
        None => Seq::empty(),
    } + if f.conditions.len() == 0 {
        Seq::empty()
    } else {
        " WHERE "@ + conditions_text(f.conditions)
    } + match f.apply_lens {
        Some(l) => " APPLY "@ + l,
        None => Seq::empty(),
    }
}

/// An EXPLORE query in canonical form.
pub open spec fn explore_text(e: ExploreV) -> Seq<char> {
    "EXPLORE "@ + e.object_ref + " THROUGH "@ + match e.direction {
        Direction::Callers => "callers"@,
        Direction::Callees => "callees"@,
    } + " DEPTH "@ + decimal(e.depth as nat)
}

fn field_text(c: &Condition) -> (r: String)
    ensures
        r@ == dotted(c.field@),
{
    let mut r = String::new();
    let mut i: usize = 0;
    let ghost v = c.field@;
    while i < c.field.parts.len()
        invariant
            i <= c.field.parts.len(),
            v == c.field@,
            r@ == dotted(v.take(i as int)),
        decreases c.field.parts.len() - i,
    {
        proof {
            assert(v.take(i + 1).drop_last() =~= v.take(i as int));
            assert(v.take(i + 1).last() == c.field.parts@[i as int]@);
            if i == 0 {
                assert(v.take(1)[0] == v[0]);
            }
        }
        if i > 0 {
            append(&mut r, ".");
        }
        append(&mut r, c.field.parts[i].as_str());
        i = i + 1;
    }
    assert(v.take(c.field.parts.len() as int) =~= v);
    r
}

/// A condition in canonical form.
pub fn render_condition(c: &Condition) -> (r: String)
    ensures
        r@ == condition_text(c@),
{
    let mut r = field_text(c);
    append(&mut r, " ");
    append(&mut r, c.op.symbol());
    append(&mut r, " ");
    match &c.value {
        Value::Number(n) => append(&mut r, n.as_str()),
        Value::String(s) => {
            append(&mut r, "\"");
            append(&mut r, s.as_str());
            append(&mut r, "\"");
        },
    }
    r
}

/// A FIND query in canonical form:
/// `FIND <target>[ IN SCOPE <scope>][ WHERE <c> AND ...][ APPLY <lens>]`.
pub fn render_find(find: &FindQuery) -> (r: String)
    ensures
        r@ == find_text(find@),
{
    let mut r = concat("FIND ", find.target.keyword());
    match &find.scope {
        Some(s) => {
            append(&mut r, " IN SCOPE ");
            append(&mut r, s.as_str());
        },
        None => {},
    }
    let ghost prefix = r@;
    let ghost cs = find@.conditions;
    if find.conditions.len() > 0 {
        append(&mut r, " WHERE ");
        let ghost start = r@;
        let mut i: usize = 0;
        while i < find.conditions.len()
            invariant
                i <= find.conditions.len(),
                cs == find@.conditions,
                cs.len() == find.conditions.len(),
                r@ == start + conditions_text(cs.take(i as int)),
            decreases find.conditions.len() - i,
        {
            proof {
                assert(cs.take(i + 1).drop_last() =~= cs.take(i as int));
                assert(cs.take(i + 1).last() == find.conditions@[i as int]@);
                if i == 0 {
                    assert(cs.take(1)[0] == cs[0]);
                }
            }
            if i > 0 {
                append(&mut r, " AND ");
            }
            let part = render_condition(&find.conditions[i]);
            append(&mut r, part.as_str());
            proof {
                assert(start + conditions_text(cs.take(i as int)) + (if i > 0 { " AND "@ } else { Seq::empty() }) + condition_text(cs[i as int])
                    =~= start + conditions_text(cs.take(i + 1)));
            }
            i = i + 1;
        }
        assert(cs.take(find.conditions.len() as int) =~= cs);
    }
    match &find.apply_lens {
        Some(l) => {
            append(&mut r, " APPLY ");
            append(&mut r, l.as_str());
        },
        None => {},
    }
    r
}

/// An EXPLORE query in canonical form:
/// `EXPLORE <object_ref> THROUGH <direction> DEPTH <n>`.
pub fn render_explore(e: &ExploreQuery) -> (r: String)
    ensures
        r@ == explore_text(e@),
{
    let mut r = concat("EXPLORE ", e.object_ref.as_str());
    append(&mut r, " THROUGH ");
    append(&mut r, e.direction.keyword());
    append(&mut r, " DEPTH ");
    let d = u64_to_string(e.depth as u64);
    append(&mut r, d.as_str());
    r
}


/// The canonical text of an EXPLORE query names the query's own direction:
/// reading it back from just after `THROUGH` with the parser's direction
/// reader gives `e.direction`, and the word read ends where ` DEPTH `
/// begins.
pub proof fn law_explore_text_reads_back_direction(e: ExploreV)
    ensures
        ({
            let m = ("EXPLORE "@.len() + e.object_ref.len() + " THROUGH"@.len()) as int;
            p_explore_direction(explore_text(e), m) == Ok::<(Direction, int), ParseErrorV>(
                (e.direction, m + 1 + "callers"@.len() as int),
            )
        }),
{
    reveal_strlit("EXPLORE ");
    reveal_strlit(" THROUGH ");
    reveal_strlit(" THROUGH");
    reveal_strlit("callers");
    reveal_strlit("callees");
    reveal_strlit(" DEPTH ");
    let s = explore_text(e);
    let kw = match e.direction {
        Direction::Callers => "callers"@,
        Direction::Callees => "callees"@,
    };
    let head = "EXPLORE "@ + e.object_ref + " THROUGH "@;
    let tail = " DEPTH "@ + decimal(e.depth as nat);
    assert(s =~= head + kw + tail);
    let m = head.len() - 1;
    let w = head.len() as int;
    assert(s[m] == ' ');
    assert(s[w] == 'c');
    lemma_scan_to_stops_at(s, m, w, StopSet::NonSpace);
    assert forall|x: int| w <= x < w + 7 implies !is_stop(StopSet::Ident, #[trigger] s[x]) by {
        assert(s[x] == kw[x - w]);
    }
    assert(s[w + 7] == ' ');
    lemma_scan_to_stops_at(s, w, w + 7, StopSet::Ident);
    assert(s.subrange(w, w + 7) =~= kw);
    if e.direction == Direction::Callees {
        assert(seq_lower(kw)[5] == spec_lower('e'));
        assert(seq_lower("callers"@)[5] == spec_lower('r'));
    }
}

} // verus!
