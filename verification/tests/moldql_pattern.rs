use cognicode_explorer::moldql::ast::{
    Aggregation, EdgeDirection, MoldQLQuery, OrderDirection, PatternPredicate, PatternProjection,
    PatternValue, PredicateTarget, RowField,
};
use cognicode_explorer::moldql::parser::ParseError;
use cognicode_explorer::moldql::parser_pattern_profile::parse_pattern_query_from_str;

fn parse_ok(input: &str) -> MoldQLQuery {
    match parse_pattern_query_from_str(input) {
        Ok(q) => q,
        Err(e) => panic!("expected Ok for `{input}`, got {}", e.message),
    }
}

fn parse_err(input: &str) -> ParseError {
    parse_pattern_query_from_str(input)
        .err()
        .unwrap_or_else(|| panic!("expected Err for `{input}`, got Ok"))
}

#[test]
fn basic_match() {
    let q = parse_ok("MATCH (r:Route) RETURN PATH(r)");
    let MoldQLQuery::Pattern(pq) = q else { panic!("expected Pattern") };
    assert!(!pq.shortest);
    assert_eq!(pq.bindings.len(), 1);
    assert_eq!(pq.bindings[0].name.as_deref(), Some("r"));
    assert_eq!(pq.bindings[0].kind, "Route");
}

#[test]
fn match_with_edge() {
    let q = parse_ok("MATCH (r:Route)-[:Calls*1..3]->(f:Function) RETURN PATH(r,f)");
    let MoldQLQuery::Pattern(pq) = q else { panic!("expected Pattern") };
    assert_eq!(pq.bindings.len(), 2);
    assert_eq!(pq.edges.len(), 1);
    assert_eq!(pq.edges[0].kind, "Calls");
    assert_eq!(pq.edges[0].direction, EdgeDirection::Outgoing);
    assert_eq!(pq.edges[0].quantifier.max_hops, Some(3));
}

#[test]
fn shortest_match() {
    let q = parse_ok("SHORTEST MATCH (a:Route)-[:Calls*1..6]->(b:Function) RETURN PATH(a,b)");
    let MoldQLQuery::Pattern(pq) = q else { panic!("expected Pattern") };
    assert!(pq.shortest);
}

#[test]
fn optional_quantifier() {
    let q = parse_ok("MATCH (f:Function)-[:Calls?]->(x:Function) RETURN PATH(f,x)");
    let MoldQLQuery::Pattern(pq) = q else { panic!("expected Pattern") };
    assert_eq!(pq.edges[0].quantifier.max_hops, Some(1));
    assert_eq!(pq.edges[0].quantifier.min_hops, 0);
}

#[test]
fn anonymous_nodes() {
    let q = parse_ok("MATCH (:Route)-[:Calls]->(:Function) RETURN PATH()");
    let MoldQLQuery::Pattern(pq) = q else { panic!("expected Pattern") };
    assert!(pq.bindings[0].name.is_none());
    assert!(pq.bindings[1].name.is_none());
}

#[test]
fn node_projection() {
    let q = parse_ok("MATCH (f:Function) RETURN NODE(f)");
    let MoldQLQuery::Pattern(pq) = q else { panic!("expected Pattern") };
    assert!(matches!(pq.projection, PatternProjection::Node { .. }));
}

#[test]
fn edge_projection() {
    let q = parse_ok("MATCH (a)-[c:Calls]->(b) RETURN EDGE(c)");
    let MoldQLQuery::Pattern(pq) = q else { panic!("expected Pattern") };
    assert!(matches!(pq.projection, PatternProjection::Edge { .. }));
}

#[test]
fn row_projection_with_ordering() {
    let q = parse_ok(
        "MATCH (f:Function)-[c:Calls]->(g) RETURN COUNT(c) AS calls ORDER BY calls DESC LIMIT 5",
    );
    let MoldQLQuery::Pattern(pq) = q else { panic!("expected Pattern") };
    assert!(matches!(pq.projection, PatternProjection::Row { .. }));
    if let PatternProjection::Row { ordering, limit, .. } = &pq.projection {
        assert!(ordering.is_some());
        assert_eq!(*limit, Some(5));
    }
}

#[test]
fn unbounded_path_rejected() {
    let e = parse_err("MATCH (a:Function)-[:Calls*]->(b:Function) RETURN b");
    assert!(e.message.contains("unbounded"), "got: {}", e.message);
}

#[test]
fn missing_closing_paren() {
    let e = parse_err("MATCH (r:Route RETURN PATH(r)");
    assert!(e.message.contains(")"), "got: {}", e.message);
}

#[test]
fn missing_closing_bracket() {
    let e = parse_err("MATCH (r:Route)-[c:Calls RETURN PATH(r,c)");
    assert!(e.message.contains("]"), "got: {}", e.message);
}

#[test]
fn parser_pattern_profile_empty_query_errors() {
    let e = parse_err("");
    assert!(e.message.contains("MATCH"), "got: {}", e.message);
}

#[test]
fn unknown_arrow_errors() {
    let e = parse_err("MATCH (a)-[b]->>(b) RETURN PATH(a,b)");
    assert!(e.message.contains("->>"), "got: {}", e.message);
}

// ---- Further cases ---------------------------------------------------------

#[test]
fn row_projection_fields_and_group_keys() {
    let q = parse_ok("MATCH (f:Function) RETURN f.module, name, COUNT() AS n ORDER BY n LIMIT 3");
    let MoldQLQuery::Pattern(pq) = q else { panic!("expected Pattern") };
    let PatternProjection::Row { fields, group_by, aggregations, ordering, limit } = pq.projection
    else {
        panic!("expected Row")
    };
    assert_eq!(
        fields,
        vec![
            RowField::Property { binding: "f".into(), field: "module".into() },
            RowField::AggregationRef { name: "name".into() },
        ]
    );
    assert_eq!(group_by, vec!["f.module".to_string(), "name".to_string()]);
    assert_eq!(aggregations, vec![Aggregation::Count { binding: None, alias: "n".into() }]);
    let o = ordering.unwrap();
    assert_eq!(o.by, "n");
    assert_eq!(o.direction, OrderDirection::Asc);
    assert_eq!(limit, Some(3));
}

#[test]
fn predicates_are_classified() {
    let q = parse_ok(
        "MATCH (a:Route)-[e:Calls]->(b) WHERE e.provenance = \"lsp\" AND confidence >= 0.7 AND b.module = \"core\" RETURN PATH(a,b)",
    );
    let MoldQLQuery::Pattern(pq) = q else { panic!("expected Pattern") };
    assert_eq!(pq.predicates.len(), 3);
    assert_eq!(
        pq.predicates[0],
        PatternPredicate::Provenance { target: Some("e".into()), source: "lsp".into() }
    );
    assert_eq!(
        pq.predicates[1],
        PatternPredicate::Confidence {
            target: PredicateTarget::Anonymous,
            op: cognicode_explorer::moldql::ast::PatternOp::Gte,
            value: 0.7f64.to_string(),
        }
    );
    match &pq.predicates[2] {
        PatternPredicate::Property { target, field, value, .. } => {
            assert_eq!(target, &PredicateTarget::Node("b".into()));
            assert_eq!(field, "module");
            assert_eq!(value, &PatternValue::String("core".into()));
        }
        other => panic!("expected Property, got {other:?}"),
    }
}

#[test]
fn default_projection_lists_named_bindings() {
    let q = parse_ok("MATCH (a:Route)-[:Calls+]->(:Function)");
    let MoldQLQuery::Pattern(pq) = q else { panic!("expected Pattern") };
    assert_eq!(pq.edges[0].quantifier.max_hops, Some(8));
    assert_eq!(pq.edges[0].quantifier.min_hops, 1);
    assert_eq!(pq.projection, PatternProjection::Path { bindings: vec!["a".to_string()] });
}

#[test]
fn star_n_means_zero_to_n() {
    let q = parse_ok("MATCH (a)-[:Calls*4]->(b)");
    let MoldQLQuery::Pattern(pq) = q else { panic!("expected Pattern") };
    assert_eq!(pq.edges[0].quantifier.max_hops, Some(4));
    assert_eq!(pq.edges[0].quantifier.min_hops, 0);
    assert_eq!(pq.edges[0].direction, EdgeDirection::Outgoing);
}

#[test]
fn arrow_after_bracket_must_start_with_dash() {
    let e = parse_err("MATCH (a)-[:Calls]<-(b)");
    assert_eq!(e.message, "expected `(` to open node pattern");
}

#[test]
fn quantifier_overflow_errors() {
    let e = parse_err("MATCH (a)-[:Calls*99999999999]->(b)");
    assert_eq!(e.message, "invalid number `99999999999` in quantifier");
}

#[test]
fn arrow_run_must_start_with_dash() {
    let e = parse_err("MATCH (a)<->(b)");
    assert_eq!(e.message, "expected `-` to start edge, found `<`");
}

#[test]
fn limit_must_be_an_integer() {
    let e = parse_err("MATCH (a) RETURN COUNT(a) AS n LIMIT x");
    assert_eq!(e.message, "expected integer");
}

#[test]
fn cloned_pattern_query_is_equal() {
    let q = parse_ok(
        "MATCH (a:Route)-[c:Calls*1..3]->(b) WHERE c.provenance = \"lsp\" AND b.module = \"core\" RETURN COUNT(c) AS calls ORDER BY calls DESC LIMIT 5",
    );
    let copy = q.clone();
    assert_eq!(q, copy);
    let MoldQLQuery::Pattern(pq) = copy else { panic!("expected Pattern") };
    assert_eq!(pq.predicates.len(), 2);
    assert_eq!(pq.edges[0].name.as_deref(), Some("c"));
}

#[test]
fn count_needs_as_and_order_needs_by() {
    let e = parse_err("MATCH (f:Function)-[c:Calls]->(g) RETURN COUNT(c) TO calls");
    assert_eq!(e.message, "expected AS after COUNT(...)");
    let e = parse_err("MATCH (f:Function)-[c:Calls]->(g) RETURN COUNT(c) AS calls ORDER ON calls");
    assert_eq!(e.message, "expected BY after ORDER");
    let q = parse_ok("MATCH (f:Function)-[c:Calls]->(g) RETURN COUNT(c) as calls order by calls desc");
    let MoldQLQuery::Pattern(pq) = q else { panic!("expected Pattern") };
    assert!(matches!(pq.projection, PatternProjection::Row { .. }));
}
