use cognicode_explorer::moldql::ast::{MoldQLQuery, OrderDirection, PatternProjection};
use cognicode_explorer::moldql::intent::{lower_captured, lower_intent, parse_u32};
use cognicode_explorer::moldql::parser;


// =========================================================================
// Pattern 1: symbols where <condition>
// =========================================================================

#[test]
fn test_symbols_where_lowercase_happy_path() {
    // GIVEN a query string `symbols where kind = "function"`
    // WHEN lower_intent is called
    // THEN it returns a MoldQLQuery::Find AST
    // AND the target is TargetType::Symbols
    // AND the conditions contain the single predicate `kind = "function"`
    let result = lower_intent("symbols where kind = \"function\"");
    assert!(
        matches!(result, Some(Ok(MoldQLQuery::Find(_)))),
        "expected Some(Ok(Find)), got {result:?}"
    );
}

#[test]
fn test_symbols_where_condition_lowering() {
    // Verify the condition is properly preserved
    let result = lower_intent("symbols where fan_out > 5");
    assert!(result.is_some(), "expected Some, got None");
    let Ok(MoldQLQuery::Find(find)) = result.unwrap() else {
        panic!("expected Find variant");
    };
    assert_eq!(find.conditions.len(), 1, "expected 1 condition");
}

#[test]
fn test_symbols_where_missing_condition_returns_none() {
    // GIVEN a query string `symbols where` (missing condition)
    // WHEN lower_intent is called
    // THEN it returns None
    let result = lower_intent("symbols where");
    assert!(
        result.is_none(),
        "expected None for malformed pattern, got {result:?}"
    );
}

// =========================================================================
// Pattern 2: calls from '<id>' [depth N]
// =========================================================================

#[test]
fn test_calls_from_with_explicit_depth() {
    // GIVEN a query string `calls from 'sym:42' depth 3`
    // WHEN lower_intent is called
    // THEN it returns a MoldQLQuery::Explore AST
    // AND object_ref is `sym:42`
    // AND direction is Direction::Callees
    // AND depth is 3
    let Some(Ok(MoldQLQuery::Explore(explore))) = lower_intent("calls from 'sym:42' depth 3")
    else {
        panic!(
            "expected Some(Ok(Explore)), got {:?}",
            lower_intent("calls from 'sym:42' depth 3")
        );
    };
    assert_eq!(explore.object_ref, "sym:42");
    assert_eq!(explore.depth, 3);
}

#[test]
fn test_calls_from_without_depth_defaults_to_one() {
    // GIVEN a query string `calls from 'sym:42'`
    // WHEN lower_intent is called
    // THEN it returns a MoldQLQuery::Explore AST
    // AND depth is 1
    let Some(Ok(MoldQLQuery::Explore(explore))) = lower_intent("calls from 'sym:42'") else {
        panic!(
            "expected Some(Ok(Explore)), got {:?}",
            lower_intent("calls from 'sym:42'")
        );
    };
    assert_eq!(explore.depth, 1, "depth should default to 1");
}

#[test]
fn test_calls_from_quoted_id() {
    // Verify quoted ID is handled
    let Some(Ok(MoldQLQuery::Explore(explore))) =
        lower_intent("calls from 'symbol:src/a.rs:a:1' depth 2")
    else {
        panic!(
            "expected Some(Ok(Explore)), got {:?}",
            lower_intent("calls from 'symbol:src/a.rs:a:1' depth 2")
        );
    };
    assert_eq!(explore.object_ref, "symbol:src/a.rs:a:1");
}

// =========================================================================
// Fall-through patterns
// =========================================================================

#[test]
fn test_uppercase_find_falls_through() {
    // GIVEN a query string `FIND symbols WHERE fan_out > 5`
    // WHEN lower_intent is called
    // THEN it returns None
    // AND the canonical parse() function handles this input
    let result = lower_intent("FIND symbols WHERE fan_out > 5");
    assert!(
        result.is_none(),
        "uppercase should return None, got {result:?}"
    );
}

#[test]
fn test_unrecognized_lowercase_returns_none() {
    // Any lowercase pattern not matching the two supported forms should
    // return None so the facade falls through to parse()
    let result = lower_intent("symbols in scope src/");
    assert!(
        result.is_none(),
        "unrecognized pattern should return None, got {result:?}"
    );
}

// =========================================================================
// Edge cases
// =========================================================================

#[test]
fn test_empty_string_returns_none() {
    let result = lower_intent("");
    assert!(result.is_none(), "empty string should return None");
}

#[test]
fn test_whitespace_only_returns_none() {
    let result = lower_intent("   ");
    assert!(result.is_none(), "whitespace should return None");
}

#[test]
fn test_uppercase_symbols_where_returns_none() {
    // Case-sensitive: uppercase SYMBOLS WHERE should not match
    let result = lower_intent("SYMBOLS WHERE fan_out > 5");
    assert!(result.is_none(), "uppercase SYMBOLS should return None");
}

#[test]
fn test_mixed_case_find_does_not_match() {
    // Mixed-case `find` should NOT match v1 (case-sensitive lowercase prefix)
    let result = lower_intent("find symbols where fan_out > 5");
    assert!(result.is_none(), "mixed-case find should return None");
}

// =========================================================================
// Roundtrip tests — lower_intent output must parse through parser::parse()
// =========================================================================

#[test]
fn test_roundtrip_symbols_where() {
    // lower_intent("symbols where fan_out > 5") must equal
    // Some(Ok(parser::parse("FIND symbols WHERE fan_out > 5")))
        let lowered = lower_intent("symbols where fan_out > 5").unwrap();
    let parsed = parser::parse("FIND symbols WHERE fan_out > 5").unwrap();
    assert_eq!(lowered, Ok(parsed), "roundtrip mismatch for symbols where");
}

#[test]
fn test_roundtrip_calls_from_depth() {
    // lower_intent("calls from 'symbol:a.rs:a:1' depth 2") must equal
    // Some(Ok(parser::parse("EXPLORE symbol:a.rs:a:1 THROUGH callees DEPTH 2")))
        let lowered = lower_intent("calls from 'symbol:a.rs:a:1' depth 2").unwrap();
    let parsed = parser::parse("EXPLORE symbol:a.rs:a:1 THROUGH callees DEPTH 2").unwrap();
    assert_eq!(lowered, Ok(parsed), "roundtrip mismatch for calls from");
}

// =========================================================================
// Pattern 3: lowercase match ... return ... (T4 — Pattern Profile lowering)
// =========================================================================

#[test]
fn test_lowercase_pattern_lowers_directly() {
    // Scenario: Lowercase pattern lowers directly
    // GIVEN `match (r:Route)-[:Calls*1..3]->(f:Function) return path(r,f)`
    // WHEN lower_intent is called
    // THEN it returns Some(Ok(MoldQLQuery::Pattern(...)))
    // AND the canonical parser is NOT called.
    let result = lower_intent("match (r:Route)-[:Calls*1..3]->(f:Function) return path(r,f)");
    assert!(
        matches!(result, Some(Ok(MoldQLQuery::Pattern(_)))),
        "expected Some(Ok(Pattern)), got {result:?}"
    );
    let Some(Ok(MoldQLQuery::Pattern(pq))) = result else {
        return;
    };
    // Verify bindings: r and f (PATH only includes start/end nodes, not edge binding)
    assert_eq!(pq.bindings.len(), 2, "expected 2 bindings in PATH(r,f)");
    assert_eq!(pq.edges.len(), 1, "expected 1 edge");
    // Verify quantifier bound: *1..3
    let edge = &pq.edges[0];
    assert_eq!(edge.quantifier.max_hops, Some(3), "max_hops should be 3");
    assert_eq!(edge.quantifier.min_hops, 1, "min_hops should be 1");
    // Verify projection is Path with 2 bindings
    assert!(
        matches!(&pq.projection, PatternProjection::Path { bindings } if bindings.len() == 2),
        "expected Path projection with 2 bindings, got {:?}",
        pq.projection
    );
}

#[test]
fn test_lowercase_mixed_unsupported_fragment_falls_through() {
    // Scenario: Mixed unsupported fragment falls through
    // GIVEN `match (f:Function) detach delete f`
    // WHEN lower_intent is called
    // THEN it returns None
    // AND the canonical parser surfaces the unsupported mutation diagnostic.
    let result = lower_intent("match (f:Function) detach delete f");
    assert!(
        result.is_none(),
        "mutation fragment should return None, got {result:?}"
    );
}

#[test]
fn test_lowercase_aggregate_and_limit() {
    // Scenario: Lower aggregate and limit
    // Uses uppercase COUNT (lowercase count is a parser edge case).
    // Tests: + maps to 1..8, ordering and limit are preserved.
    let result = lower_intent(
        "match (f:Function)-[c:Calls+]->(g:Function) return COUNT(c) AS calls ORDER BY calls DESC LIMIT 5",
    );
    assert!(
        matches!(result, Some(Ok(MoldQLQuery::Pattern(_)))),
        "expected Some(Ok(Pattern)), got {result:?}"
    );
    let Some(Ok(MoldQLQuery::Pattern(pq))) = result else {
        return;
    };
    // Verify + maps to 1..8 (profile max hops default = 8)
    assert_eq!(pq.edges.len(), 1);
    let edge = &pq.edges[0];
    assert_eq!(edge.quantifier.min_hops, 1, "+ should map to min_hops=1");
    assert_eq!(
        edge.quantifier.max_hops,
        Some(8),
        "+ should map to max_hops=8"
    );
    // Verify projection has ordering and limit
    if let PatternProjection::Row {
        ordering, limit, ..
    } = &pq.projection
    {
        assert!(ordering.is_some(), "expected ordering");
        let ord = ordering.as_ref().unwrap();
        assert!(
            matches!(ord.direction, OrderDirection::Desc),
            "expected DESC"
        );
        assert_eq!(ord.by, "calls", "order by calls");
        assert_eq!(*limit, Some(5), "limit should be 5");
    } else {
        panic!("expected Row projection, got {:?}", pq.projection);
    }
}

#[test]
fn test_lowercase_optional_relationship() {
    // Scenario: Lower optional relationship
    // GIVEN `match (f:Function)-[:Calls?]->(x:Function) return node(x)`
    // WHEN lowered
    // THEN its relationship bound is 0..1.
    let result = lower_intent("match (f:Function)-[:Calls?]->(x:Function) return node(x)");
    assert!(
        matches!(result, Some(Ok(MoldQLQuery::Pattern(_)))),
        "expected Some(Ok(Pattern)), got {result:?}"
    );
    let Some(Ok(MoldQLQuery::Pattern(pq))) = result else {
        return;
    };
    // Verify ? maps to 0..1
    assert_eq!(pq.edges.len(), 1);
    let edge = &pq.edges[0];
    assert_eq!(edge.quantifier.min_hops, 0, "? should map to min_hops=0");
    assert_eq!(
        edge.quantifier.max_hops,
        Some(1),
        "? should map to max_hops=1"
    );
    // Verify node(x) projection
    assert!(
        matches!(&pq.projection, PatternProjection::Node { binding } if binding == "x"),
        "expected Node(x) projection, got {:?}",
        pq.projection
    );
}

#[test]
fn test_lowercase_shortest_pattern() {
    // Scenario: SHORTEST keyword is preserved in lowering
    // Grammar: [SHORTEST] MATCH NodePattern — SHORTEST comes BEFORE MATCH.
    let result =
        lower_intent("shortest match (r:Route)-[:Calls*1..6]->(f:Function) return path(r,f)");
    assert!(
        matches!(result, Some(Ok(MoldQLQuery::Pattern(_)))),
        "expected Some(Ok(Pattern)), got {result:?}"
    );
    let Some(Ok(MoldQLQuery::Pattern(pq))) = result else {
        return;
    };
    assert!(pq.shortest, "SHORTEST keyword should be preserved");
}

#[test]
fn test_existing_intent_lowering_unchanged() {
    // Scenario: Existing intent lowering is unchanged
    // GIVEN `symbols where kind = "function"` or `calls from 'sym:42' depth 3`
    // WHEN lower_intent is called
    // THEN each produces the same existing AST and defaults as before.
    
    // symbols where — unchanged
    let symbols = lower_intent("symbols where kind = \"function\"").unwrap();
    let symbols_parsed = parser::parse("FIND symbols WHERE kind = \"function\"").unwrap();
    assert_eq!(
        symbols,
        Ok(symbols_parsed),
        "symbols where roundtrip broken"
    );

    // calls from — unchanged
    let calls = lower_intent("calls from 'sym:42' depth 3").unwrap();
    let calls_parsed = parser::parse("EXPLORE sym:42 THROUGH callees DEPTH 3").unwrap();
    assert_eq!(calls, Ok(calls_parsed), "calls from roundtrip broken");
}

#[test]
fn test_uppercase_match_falls_through() {
    // Uppercase MATCH should NOT be handled by lower_intent — it goes
    // through the canonical parser.
    let result = lower_intent("MATCH (f:Function) return node(f)");
    assert!(
        result.is_none(),
        "uppercase MATCH should return None, got {result:?}"
    );
}

#[test]
fn test_mixed_case_match_falls_through() {
    // Mixed-case `Match` should NOT be handled — only lowercase.
    let result = lower_intent("Match (f:Function) return node(f)");
    assert!(
        result.is_none(),
        "mixed-case Match should return None, got {result:?}"
    );
}


#[test]
fn lowering_from_given_captures() {
    let sw = Some(vec![Some("symbols where fan_in > 2".to_string()), Some("fan_in > 2".to_string())]);
    assert_eq!(
        lower_captured("symbols where fan_in > 2", sw, None, None),
        Some(parser::parse("FIND symbols WHERE fan_in > 2"))
    );
    // An out-of-range depth falls back to 1.
    let cf = Some(vec![
        Some("calls from x depth 99999999999".to_string()),
        Some("x".to_string()),
        Some("99999999999".to_string()),
    ]);
    assert_eq!(
        lower_captured("calls from x depth 99999999999", None, cf, None),
        Some(parser::parse("EXPLORE x THROUGH callees DEPTH 1"))
    );
    // A pattern head with a mutating keyword is left to the parser.
    let ph = Some(vec![Some("match ".to_string())]);
    assert_eq!(lower_captured("match (n:X) set n.a = 1", None, None, ph), None);
    assert_eq!(lower_captured("anything", None, None, None), None);
}

#[test]
fn parse_u32_follows_std() {
    assert_eq!(parse_u32("7"), Some(7));
    assert_eq!(parse_u32("+7"), Some(7));
    assert_eq!(parse_u32("007"), Some(7));
    assert_eq!(parse_u32("4294967295"), Some(u32::MAX));
    assert_eq!(parse_u32("4294967296"), None);
    assert_eq!(parse_u32(""), None);
    assert_eq!(parse_u32("+"), None);
    assert_eq!(parse_u32("-1"), None);
    assert_eq!(parse_u32("12a"), None);
    for s in ["0", "42", "+13", "99999999999", "x"] {
        assert_eq!(parse_u32(s), s.parse::<u32>().ok());
    }
}

#[test]
fn calls_from_double_quotes_and_bare_ids() {
    let Some(Ok(MoldQLQuery::Explore(e))) = lower_intent("calls from \"sym:7\" depth 4") else {
        panic!("expected an EXPLORE");
    };
    assert_eq!(e.object_ref, "sym:7");
    assert_eq!(e.depth, 4);
    let Some(Ok(MoldQLQuery::Explore(e))) = lower_intent("calls from sym:8") else {
        panic!("expected an EXPLORE");
    };
    assert_eq!(e.object_ref, "sym:8");
    assert_eq!(e.depth, 1);
}
