use cognicode_explorer::moldql::ast::{
    BooleanOp, ClusterMethod, Direction, FindQuery, MoldQLQuery, Op, TargetType,
    TraversalDirection, Value,
};
use cognicode_explorer::moldql::parser::{parse, ParseError};

/// A number value as the parser keeps it: the text `f64` displays.
fn num(x: f64) -> Value {
    Value::Number(x.to_string())
}

fn parse_ok(input: &str) -> MoldQLQuery {
    match parse(input) {
        Ok(q) => q,
        Err(e) => panic!("expected Ok for `{input}`, got {}", e.message),
    }
}

fn p(input: &str) -> MoldQLQuery {
    parse_ok(input)
}

fn parse_err(input: &str) -> ParseError {
    parse(input).err().unwrap_or_else(|| panic!("expected Err for `{input}`, got Ok"))
}

// ---- FIND ------------------------------------------------------------------

#[test]
fn find_symbols_no_clauses() {
    let q = parse_ok("FIND symbols");
    assert!(matches!(
        q,
        MoldQLQuery::Find(FindQuery {
            target: TargetType::Symbols,
            scope: None,
            conditions,
            apply_lens: None,
        }) if conditions.is_empty()
    ));
}

#[test]
fn find_with_where_numeric() {
    let q = parse_ok("FIND symbols WHERE fan_in > 5");
    let MoldQLQuery::Find(f) = q else { panic!("expected Find") };
    assert_eq!(f.target, TargetType::Symbols);
    assert_eq!(f.conditions.len(), 1);
    let c = &f.conditions[0];
    assert_eq!(c.field.parts, vec!["fan_in".to_string()]);
    assert_eq!(c.op, Op::Gt);
    assert_eq!(c.value, num(5.0));
}

#[test]
fn find_with_in_scope() {
    let q = parse_ok("FIND files IN SCOPE src");
    let MoldQLQuery::Find(f) = q else { panic!("expected Find") };
    assert_eq!(f.target, TargetType::Files);
    assert_eq!(f.scope.as_deref(), Some("src"));
    assert!(f.conditions.is_empty());
}

#[test]
fn find_with_scope_where_apply() {
    let q = parse_ok(
        "FIND symbols IN SCOPE src WHERE kind = \"Function\" AND fan_out < 3 APPLY hotspots",
    );
    let MoldQLQuery::Find(f) = q else { panic!("expected Find") };
    assert_eq!(f.target, TargetType::Symbols);
    assert_eq!(f.scope.as_deref(), Some("src"));
    assert_eq!(f.conditions.len(), 2);
    assert_eq!(f.apply_lens.as_deref(), Some("hotspots"));
    assert_eq!(f.conditions[0].field.parts, vec!["kind".to_string()]);
    assert_eq!(f.conditions[0].op, Op::Eq);
    assert_eq!(f.conditions[0].value, Value::String("Function".to_string()));
    assert_eq!(f.conditions[1].field.parts, vec!["fan_out".to_string()]);
    assert_eq!(f.conditions[1].op, Op::Lt);
    assert_eq!(f.conditions[1].value, num(3.0));
}

#[test]
fn find_quality_dotted_field() {
    let q = parse_ok("FIND files WHERE quality.critical > 0");
    let MoldQLQuery::Find(f) = q else { panic!("expected Find") };
    let c = &f.conditions[0];
    assert_eq!(c.field.parts, vec!["quality".to_string(), "critical".to_string()]);
    assert_eq!(c.op, Op::Gt);
    assert_eq!(c.value, num(0.0));
}

#[test]
fn find_all_operators() {
    for (input, expected) in [
        ("FIND symbols WHERE fan_in > 5", Op::Gt),
        ("FIND symbols WHERE fan_in >= 5", Op::Gte),
        ("FIND symbols WHERE fan_in < 5", Op::Lt),
        ("FIND symbols WHERE fan_in <= 5", Op::Lte),
        ("FIND symbols WHERE fan_in == 5", Op::Eq),
        ("FIND symbols WHERE fan_in != 5", Op::Neq),
        ("FIND symbols WHERE name ~ \"main\"", Op::Contains),
    ] {
        let q = parse_ok(input);
        let MoldQLQuery::Find(f) = q else { panic!("expected Find for `{input}`") };
        assert_eq!(f.conditions[0].op, expected, "operator for `{input}`");
    }
}

#[test]
fn find_issues_target() {
    let q = parse_ok("FIND issues WHERE severity = \"Critical\"");
    let MoldQLQuery::Find(f) = q else { panic!("expected Find") };
    assert_eq!(f.target, TargetType::Issues);
    assert_eq!(f.conditions[0].value, Value::String("Critical".to_string()));
}

#[test]
fn find_unquoted_string_value() {
    let q = parse_ok("FIND symbols WHERE kind = Function");
    let MoldQLQuery::Find(f) = q else { panic!("expected Find") };
    assert_eq!(f.conditions[0].value, Value::String("Function".to_string()));
}

// ---- EXPLORE ---------------------------------------------------------------

#[test]
fn explore_callers() {
    let q = parse_ok("EXPLORE symbol:src/main.rs:main:1 THROUGH callers DEPTH 3");
    let MoldQLQuery::Explore(e) = q else { panic!("expected Explore") };
    assert_eq!(e.object_ref, "symbol:src/main.rs:main:1");
    assert_eq!(e.direction, Direction::Callers);
    assert_eq!(e.depth, 3);
}

#[test]
fn explore_callees() {
    let q = parse_ok("EXPLORE symbol:src/main.rs:main:1 THROUGH callees DEPTH 1");
    let MoldQLQuery::Explore(e) = q else { panic!("expected Explore") };
    assert_eq!(e.direction, Direction::Callees);
    assert_eq!(e.depth, 1);
}

#[test]
fn explore_depth_zero() {
    let q = parse_ok("EXPLORE symbol:src/main.rs:main:1 THROUGH callers DEPTH 0");
    let MoldQLQuery::Explore(e) = q else { panic!("expected Explore") };
    assert_eq!(e.depth, 0);
}

#[test]
fn case_insensitive_keywords() {
    let q = parse_ok("find SYMBOLS where fan_in > 5");
    let MoldQLQuery::Find(f) = q else { panic!("expected Find") };
    assert_eq!(f.target, TargetType::Symbols);
    assert_eq!(f.conditions[0].op, Op::Gt);
}

// ---- Errors ----------------------------------------------------------------

#[test]
fn parser_empty_query_errors() {
    let e = parse_err("");
    assert!(e.message.contains("empty"));
}

#[test]
fn unknown_leading_keyword_errors() {
    let e = parse_err("FOO symbols");
    assert!(e.message.contains("FIND or EXPLORE"));
}

#[test]
fn unknown_target_type_errors() {
    let e = parse_err("FIND widgets");
    assert!(e.message.contains("unknown target type"));
}

#[test]
fn missing_value_errors() {
    let e = parse_err("FIND symbols WHERE fan_in >");
    assert!(e.message.contains("value"));
}

#[test]
fn missing_operator_errors() {
    let e = parse_err("FIND symbols WHERE fan_in");
    assert!(e.message.contains("operator"));
}

#[test]
fn trailing_garbage_errors() {
    let e = parse_err("FIND symbols WHERE fan_in > 5 BOGUS");
    assert!(
        e.message.contains("BOGUS"),
        "error should name the unexpected token, got: {}",
        e.message
    );
}

#[test]
fn invalid_direction_errors() {
    let e = parse_err("EXPLORE symbol:src/main.rs:main:1 THROUGH sideways DEPTH 1");
    assert!(e.message.contains("callers"));
}

#[test]
fn missing_depth_errors() {
    let e = parse_err("EXPLORE symbol:src/main.rs:main:1 THROUGH callers");
    assert!(e.message.contains("DEPTH"));
}

#[test]
fn invalid_depth_value_errors() {
    let e = parse_err("EXPLORE symbol:src/main.rs:main:1 THROUGH callers DEPTH 1.5");
    assert!(e.message.contains("integer"));
}

#[test]
fn missing_in_scope_path_errors() {
    let e = parse_err("FIND symbols IN SCOPE");
    assert!(e.message.contains("scope path"));
}

#[test]
fn error_carries_position() {
    let e = parse_err("FOO");
    assert_eq!(e.line, 1);
    assert_eq!(e.column, 1);
}

// ---- Boolean composition ---------------------------------------------------

#[test]
fn parse_boolean_and_or() {
    let q = p("FIND symbols AND EXPLORE symbol:a:b:1 THROUGH callers DEPTH 1");
    match q {
        MoldQLQuery::Boolean(b) => {
            assert_eq!(b.op, BooleanOp::And);
            assert_eq!(b.operands.len(), 2);
            assert!(matches!(b.operands[0], MoldQLQuery::Find(_)));
            assert!(matches!(b.operands[1], MoldQLQuery::Explore(_)));
        }
        other => panic!("expected Boolean, got {other:?}"),
    }
}

#[test]
fn parse_or_chain() {
    let q = p("PATH FROM a TO b OR PATH FROM c TO d");
    match q {
        MoldQLQuery::Boolean(b) => {
            assert_eq!(b.op, BooleanOp::Or);
            assert_eq!(b.operands.len(), 2);
        }
        other => panic!("expected Boolean(Or), got {other:?}"),
    }
}

#[test]
fn parse_not() {
    let q = p("NOT PATH FROM a TO b");
    match q {
        MoldQLQuery::Boolean(b) => {
            assert_eq!(b.op, BooleanOp::Not);
            assert_eq!(b.operands.len(), 1);
            assert!(matches!(b.operands[0], MoldQLQuery::Path(_)));
        }
        other => panic!("expected Boolean(Not), got {other:?}"),
    }
}

#[test]
fn parse_paren_group() {
    let q = p("(PATH FROM a TO b) AND (PATH FROM c TO d)");
    match q {
        MoldQLQuery::Boolean(b) => {
            assert_eq!(b.op, BooleanOp::And);
            assert_eq!(b.operands.len(), 2);
        }
        other => panic!("expected Boolean(And), got {other:?}"),
    }
}

#[test]
fn parse_paren_around_single_primitive_unwraps() {
    let q = p("(PATH FROM a TO b)");
    assert!(matches!(q, MoldQLQuery::Path(_)));
}

#[test]
fn parse_and_or_precedence() {
    let q = p("PATH FROM a TO b AND PATH FROM c TO d OR PATH FROM e TO f AND PATH FROM g TO h");
    match q {
        MoldQLQuery::Boolean(b) => {
            assert_eq!(b.op, BooleanOp::Or);
            assert_eq!(b.operands.len(), 2);
            match &b.operands[0] {
                MoldQLQuery::Boolean(b0) => {
                    assert_eq!(b0.op, BooleanOp::And);
                    assert_eq!(b0.operands.len(), 2);
                }
                other => panic!("expected inner And, got {other:?}"),
            }
            match &b.operands[1] {
                MoldQLQuery::Boolean(b1) => {
                    assert_eq!(b1.op, BooleanOp::And);
                    assert_eq!(b1.operands.len(), 2);
                }
                other => panic!("expected inner And, got {other:?}"),
            }
        }
        other => panic!("expected Boolean(Or), got {other:?}"),
    }
}

#[test]
fn unknown_keyword_lists_seven() {
    let err = parse("FOO x").unwrap_err();
    let m = err.message;
    for k in &["FIND", "EXPLORE", "PATH", "NEIGHBORS", "SUBGRAPH", "CLUSTER", "EXPLAIN"] {
        assert!(m.contains(k), "error message should mention {k}, got: {m}");
    }
}

// ---- PATH ------------------------------------------------------------------

#[test]
fn parse_path_basic() {
    let q = p("PATH FROM a TO b");
    let MoldQLQuery::Path(pq) = q else { panic!("expected Path") };
    assert_eq!(pq.from, "a");
    assert_eq!(pq.to, "b");
    assert!(pq.max_hops.is_none());
    assert!(pq.conditions.is_empty());
}

#[test]
fn parse_path_max_hops() {
    let q = p("PATH FROM a TO b MAX HOPS 3");
    let MoldQLQuery::Path(pq) = q else { panic!("expected Path") };
    assert_eq!(pq.max_hops, Some(3));
}

#[test]
fn parse_path_rejects_non_int_max_hops() {
    let err = parse("PATH FROM a TO b MAX HOPS 1.5").unwrap_err();
    assert!(err.message.contains("integer"));
}

#[test]
fn parse_path_with_where() {
    let q = p("PATH FROM a TO b WHERE provenance.lsp = \"x\"");
    let MoldQLQuery::Path(pq) = q else { panic!("expected Path") };
    assert_eq!(pq.conditions.len(), 1);
}

// ---- NEIGHBORS -------------------------------------------------------------

#[test]
fn parse_neighbors_basic() {
    let q = p("NEIGHBORS a DEPTH 2");
    let MoldQLQuery::Neighbors(nq) = q else { panic!("expected Neighbors") };
    assert_eq!(nq.root, "a");
    assert_eq!(nq.depth, 2);
    assert_eq!(nq.direction, TraversalDirection::Both);
}

#[test]
fn parse_neighbors_incoming() {
    let q = p("NEIGHBORS a DEPTH 1 DIRECTION incoming");
    let MoldQLQuery::Neighbors(nq) = q else { panic!("expected Neighbors") };
    assert_eq!(nq.direction, TraversalDirection::Incoming);
}

#[test]
fn parse_neighbors_outgoing() {
    let q = p("NEIGHBORS a DEPTH 1 DIRECTION outgoing");
    let MoldQLQuery::Neighbors(nq) = q else { panic!("expected Neighbors") };
    assert_eq!(nq.direction, TraversalDirection::Outgoing);
}

#[test]
fn parse_neighbors_both() {
    let q = p("NEIGHBORS a DEPTH 1 DIRECTION both");
    let MoldQLQuery::Neighbors(nq) = q else { panic!("expected Neighbors") };
    assert_eq!(nq.direction, TraversalDirection::Both);
}

#[test]
fn parse_neighbors_depth_capped_at_5() {
    let q = p("NEIGHBORS a DEPTH 99");
    let MoldQLQuery::Neighbors(nq) = q else { panic!("expected Neighbors") };
    assert_eq!(nq.depth, 5);
}

// ---- SUBGRAPH --------------------------------------------------------------

#[test]
fn parse_subgraph_basic() {
    let q = p("SUBGRAPH ROOT a");
    let MoldQLQuery::Subgraph(sq) = q else { panic!("expected Subgraph") };
    assert_eq!(sq.root, "a");
    assert_eq!(sq.depth, 3);
    assert_eq!(sq.direction, TraversalDirection::Both);
}

#[test]
fn parse_subgraph_with_where() {
    let q = p("SUBGRAPH ROOT a WHERE confidence >= 0.5");
    let MoldQLQuery::Subgraph(sq) = q else { panic!("expected Subgraph") };
    assert_eq!(sq.depth, 3);
    assert_eq!(sq.conditions.len(), 1);
}

#[test]
fn parse_subgraph_custom_depth() {
    let q = p("SUBGRAPH ROOT a DEPTH 2");
    let MoldQLQuery::Subgraph(sq) = q else { panic!("expected Subgraph") };
    assert_eq!(sq.depth, 2);
}

// ---- CLUSTER ---------------------------------------------------------------

#[test]
fn parse_cluster_scc() {
    let q = p("CLUSTER METHOD scc");
    let MoldQLQuery::Cluster(cq) = q else { panic!("expected Cluster") };
    assert_eq!(cq.method, ClusterMethod::Scc);
}

#[test]
fn parse_cluster_connected() {
    let q = p("CLUSTER METHOD connected");
    let MoldQLQuery::Cluster(cq) = q else { panic!("expected Cluster") };
    assert_eq!(cq.method, ClusterMethod::Connected);
}

#[test]
fn parse_cluster_bare_default_scc() {
    let q = p("CLUSTER");
    let MoldQLQuery::Cluster(cq) = q else { panic!("expected Cluster") };
    assert_eq!(cq.method, ClusterMethod::Scc);
}

#[test]
fn parse_cluster_with_where() {
    let q = p("CLUSTER WHERE cluster_id = 42");
    let MoldQLQuery::Cluster(cq) = q else { panic!("expected Cluster") };
    assert_eq!(cq.conditions.len(), 1);
}

// ---- EXPLAIN ---------------------------------------------------------------

#[test]
fn parse_explain_basic() {
    let q = p("EXPLAIN FROM a TO b");
    let MoldQLQuery::Explain(eq) = q else { panic!("expected Explain") };
    assert_eq!(eq.from, "a");
    assert_eq!(eq.to, "b");
}

#[test]
fn parse_explain_rejects_max_hops() {
    let err = parse("EXPLAIN FROM a TO b MAX HOPS 3").unwrap_err();
    assert!(err.message.contains("MAX HOPS"));
}

#[test]
fn parse_explain_with_where() {
    let q = p("EXPLAIN FROM a TO b WHERE confidence <= 0.8");
    let MoldQLQuery::Explain(eq) = q else { panic!("expected Explain") };
    assert_eq!(eq.conditions.len(), 1);
}

// ---- WHERE filters ---------------------------------------------------------

#[test]
fn where_filter_provenance_lsp() {
    let q = p("PATH FROM a TO b WHERE provenance.lsp = \"rust\"");
    let MoldQLQuery::Path(pq) = q else { panic!("expected Path") };
    let c = &pq.conditions[0];
    assert_eq!(c.field.parts, vec!["provenance".to_string(), "lsp".to_string()]);
}

#[test]
fn where_filter_provenance_tree_sitter() {
    let q = p("PATH FROM a TO b WHERE provenance.tree_sitter = \"py\"");
    let MoldQLQuery::Path(pq) = q else { panic!("expected Path") };
    let c = &pq.conditions[0];
    assert_eq!(c.field.tail(), Some("tree_sitter"));
}

#[test]
fn where_filter_confidence_lower_bound() {
    let q = p("PATH FROM a TO b WHERE confidence >= 0.7");
    let MoldQLQuery::Path(pq) = q else { panic!("expected Path") };
    let c = &pq.conditions[0];
    assert_eq!(c.field.parts, vec!["confidence".to_string()]);
    assert_eq!(c.op, Op::Gte);
    assert_eq!(c.value, num(0.7));
}

#[test]
fn where_filter_confidence_upper_bound() {
    let q = p("PATH FROM a TO b WHERE confidence <= 0.3");
    let MoldQLQuery::Path(pq) = q else { panic!("expected Path") };
    assert_eq!(pq.conditions[0].op, Op::Lte);
}

#[test]
fn where_filter_combined_provenance_and_confidence() {
    let q = p("PATH FROM a TO b WHERE provenance.lsp = \"rust\" AND confidence >= 0.5");
    let MoldQLQuery::Path(pq) = q else { panic!("expected Path") };
    assert_eq!(pq.conditions.len(), 2);
    assert_eq!(pq.conditions[0].field.head(), "provenance");
    assert_eq!(pq.conditions[1].field.parts, vec!["confidence".to_string()]);
}

#[test]
fn boolean_precedence_parens() {
    let q = p("PATH FROM a TO b AND (PATH FROM c TO d OR PATH FROM e TO f)");
    match q {
        MoldQLQuery::Boolean(b) => {
            assert_eq!(b.op, BooleanOp::And);
            assert_eq!(b.operands.len(), 2);
            match &b.operands[1] {
                MoldQLQuery::Boolean(b1) => {
                    assert_eq!(b1.op, BooleanOp::Or);
                    assert_eq!(b1.operands.len(), 2);
                }
                other => panic!("expected inner Or, got {other:?}"),
            }
        }
        other => panic!("expected Boolean(And), got {other:?}"),
    }
}

#[test]
fn parse_target_legacy_targets_regression() {
    for (q, expected) in [
        ("FIND symbols", TargetType::Symbols),
        ("FIND files", TargetType::Files),
        ("FIND scopes", TargetType::Scopes),
        ("FIND issues", TargetType::Issues),
    ] {
        let parsed = p(q);
        let MoldQLQuery::Find(fq) = parsed else {
            panic!("expected Find for `{q}`, got something else");
        };
        assert_eq!(fq.target, expected, "wrong target for `{q}`");
    }
}

// ---- Further cases ---------------------------------------------------------

#[test]
fn numbers_keep_their_display_text() {
    let q = p("FIND symbols WHERE a > 1e3 AND b < -0.250 AND c = +7 AND d = 1.5E-2");
    let MoldQLQuery::Find(f) = q else { panic!("expected Find") };
    assert_eq!(f.conditions[0].value, num(1e3));
    assert_eq!(f.conditions[1].value, num(-0.25));
    assert_eq!(f.conditions[2].value, num(7.0));
    assert_eq!(f.conditions[3].value, num(0.015));
}

#[test]
fn special_number_words() {
    let q = p("FIND symbols WHERE a = inf AND b = NaN AND c = -Infinity");
    let MoldQLQuery::Find(f) = q else { panic!("expected Find") };
    assert_eq!(f.conditions[0].value, num(f64::INFINITY));
    assert_eq!(f.conditions[1].value, Value::Number(f64::NAN.to_string()));
    assert_eq!(f.conditions[2].value, num(f64::NEG_INFINITY));
}

#[test]
fn numeric_object_ref_uses_display_text() {
    let q = p("EXPLORE 42.0 THROUGH callers DEPTH 2");
    let MoldQLQuery::Explore(e) = q else { panic!("expected Explore") };
    assert_eq!(e.object_ref, 42.0f64.to_string());
}

#[test]
fn depth_of_negative_zero_is_zero() {
    let q = p("EXPLORE x THROUGH callers DEPTH -0");
    let MoldQLQuery::Explore(e) = q else { panic!("expected Explore") };
    assert_eq!(e.depth, 0);
}

#[test]
fn depth_saturates_like_a_cast() {
    let q = p("EXPLORE x THROUGH callers DEPTH 1e12");
    let MoldQLQuery::Explore(e) = q else { panic!("expected Explore") };
    assert_eq!(e.depth, 1e12f64 as u32);
}

#[test]
fn depth_word_is_not_a_number() {
    let e = parse_err("EXPLORE x THROUGH callers DEPTH deep");
    assert_eq!(e.message, "DEPTH must be a number, found `deep`");
}

#[test]
fn duplicate_clauses_error() {
    assert_eq!(parse_err("FIND files IN SCOPE a IN SCOPE b").message, "duplicate IN SCOPE clause");
    assert_eq!(parse_err("FIND files APPLY x APPLY y").message, "duplicate APPLY clause");
}

#[test]
fn unclosed_group_errors() {
    let e = parse_err("(PATH FROM a TO b");
    assert_eq!(e.message, "expected `)` to close boolean group");
    assert_eq!((e.line, e.column), (1, 18));
}

#[test]
fn trailing_input_errors_with_position() {
    let e = parse_err("CLUSTER\n  garbage");
    assert_eq!(e.message, "unexpected trailing input: `garbage`");
    assert_eq!((e.line, e.column), (2, 3));
}

#[test]
fn unterminated_string_errors_at_end() {
    let e = parse_err("FIND symbols WHERE kind = \"Func");
    assert_eq!(e.message, "expected value after operator");
    assert_eq!(e.column, 32);
}

#[test]
fn or_chain_flattens() {
    let q = p("PATH FROM a TO b OR PATH FROM c TO d OR NOT CLUSTER");
    let MoldQLQuery::Boolean(b) = q else { panic!("expected Boolean") };
    assert_eq!(b.op, BooleanOp::Or);
    assert_eq!(b.operands.len(), 3);
}

#[test]
fn parse_error_describes_its_position() {
    let e = parse("   ").expect_err("empty");
    assert_eq!(e.describe(), "empty query — expected FIND or EXPLORE at line 1, column 1");
    let e = parse("FIND symbols\nWHERE").expect_err("dangling WHERE");
    assert_eq!(e.line, 2);
    assert!(e.column >= 1);
    assert!(e.describe().ends_with(&format!("at line 2, column {}", e.column)));
}

#[test]
fn in_must_be_followed_by_scope() {
    let e = parse_err("FIND symbols IN SCOPES src");
    assert_eq!(e.message, "expected SCOPE after IN");
    assert_eq!(e.column, 17);
    assert!(parse_ok("FIND symbols in scope src") == parse_ok("FIND symbols IN SCOPE src"));
}
