use cognicode_explorer::moldql::ast::{
    BooleanOp, ClusterMethod, Condition, Field, MoldQLQuery, Op, PathQuery, TraversalDirection, Value,
};
use cognicode_explorer::moldql::compile::{
    compile, CompileError, CompileTarget, CompiledQuery, PetgraphPlan,
};
use cognicode_explorer::moldql::compile_fixtures;
use cognicode_explorer::moldql::parser::parse;

fn p(s: &str) -> MoldQLQuery {
    match parse(s) {
        Ok(q) => q,
        Err(e) => panic!("parse failed: {}", e.message),
    }
}

fn pg(q: &MoldQLQuery) -> String {
    match compile(q, CompileTarget::Postgres) {
        Ok(CompiledQuery::Postgres(sql)) => sql,
        Ok(other) => panic!("expected Postgres, got {other:?}"),
        Err(e) => panic!("compile failed: {}", e.message()),
    }
}

fn petgraph(q: &MoldQLQuery) -> PetgraphPlan {
    match compile(q, CompileTarget::Petgraph) {
        Ok(CompiledQuery::Petgraph(plan)) => plan,
        Ok(other) => panic!("expected Petgraph, got {other:?}"),
        Err(e) => panic!("compile failed: {}", e.message()),
    }
}

// ---- PG emit: PATH -------------------------------------------------

#[test]
fn compile_path_to_pg_starts_with_recursive_cte() {
    let q = compile_fixtures::path("a", "b");
    let sql = pg(&q);
    assert!(
        sql.contains("WITH RECURSIVE search_path"),
        "SQL should start with `WITH RECURSIVE search_path`, got: {sql}"
    );
}

#[test]
fn compile_path_to_pg_binds_string_values() {
    let q = compile_fixtures::path("alpha", "beta");
    let sql = pg(&q);
    assert!(!sql.contains("'alpha'"), "alpha is a user value, must be bound: {sql}");
    assert!(!sql.contains("'beta'"), "beta is a user value, must be bound: {sql}");
    assert!(sql.contains("$1"), "expected $1 bind: {sql}");
    assert!(sql.contains("$2"), "expected $2 bind: {sql}");
}

#[test]
fn compile_path_max_hops_zero_emits_depth_cap() {
    let q = compile_fixtures::path_with_max_hops("a", "b", 0);
    let sql = pg(&q);
    assert!(sql.contains("depth"), "max_hops must materialise as a depth cap: {sql}");
}

#[test]
fn compile_path_to_pg_where_clause_renders_predicate() {
    let mut path = match p("PATH FROM a TO b") {
        MoldQLQuery::Path(pq) => pq,
        _ => panic!(),
    };
    path.conditions.push(compile_fixtures::cond_provenance("lsp", "rust"));
    let q = MoldQLQuery::Path(path);
    let sql = pg(&q);
    assert!(
        sql.to_ascii_uppercase().contains("PROVENANCE"),
        "WHERE must render a PROVENANCE predicate: {sql}"
    );
}

// ---- PG emit: NEIGHBORS --------------------------------------------

#[test]
fn compile_neighbors_to_pg_uses_join() {
    let q = compile_fixtures::neighbors("a", 2, TraversalDirection::Both);
    let sql = pg(&q);
    assert!(
        sql.to_ascii_uppercase().contains("JOIN") || sql.to_ascii_uppercase().contains("RECURSIVE"),
        "NEIGHBORS must use JOIN or RECURSIVE: {sql}"
    );
}

#[test]
fn compile_neighbors_incoming_emits_backward() {
    let q = compile_fixtures::neighbors("a", 1, TraversalDirection::Incoming);
    let sql = pg(&q);
    assert!(
        sql.contains("to") || sql.contains("target"),
        "incoming should reference the `to` side: {sql}"
    );
}

// ---- PG emit: SUBGRAPH ---------------------------------------------

#[test]
fn compile_subgraph_to_pg_uses_recursive_cte() {
    let q = compile_fixtures::subgraph("a", 2);
    let sql = pg(&q);
    assert!(
        sql.to_ascii_uppercase().contains("WITH RECURSIVE"),
        "SUBGRAPH must use WITH RECURSIVE: {sql}"
    );
}

// ---- PG emit: CLUSTER ----------------------------------------------

#[test]
fn compile_cluster_scc_to_pg_uses_existing_helper() {
    let q = compile_fixtures::cluster(ClusterMethod::Scc);
    let sql = pg(&q);
    assert!(
        sql.to_ascii_uppercase().contains("SCC") || sql.to_ascii_uppercase().contains("CYCLE"),
        "CLUSTER scc must reference SCC semantics: {sql}"
    );
}

// ---- PG emit: EXPLAIN ----------------------------------------------

#[test]
fn compile_explain_to_pg_emits_path_query() {
    let q = compile_fixtures::explain("a", "b");
    let sql = pg(&q);
    assert!(
        sql.to_ascii_uppercase().contains("PATH") || sql.to_ascii_uppercase().contains("EXISTS"),
        "EXPLAIN must render a path query: {sql}"
    );
}

// ---- PG: parameterization safety net --------------------------------

#[test]
fn pg_no_string_interpolation_in_output() {
    let queries = vec![
        compile_fixtures::path("alpha' OR 1=1; --", "beta"),
        compile_fixtures::path("a", "b"),
        compile_fixtures::path_with_max_hops("DROP TABLE foo; --", "x", 5),
        compile_fixtures::explain("a", "b"),
        compile_fixtures::subgraph("evil", 3),
    ];
    for q in queries {
        let sql = pg(&q);
        assert!(
            !sql.contains('\''),
            "SQL must not contain any single-quoted string (user values are bound): {sql}"
        );
    }
}

// ---- petgraph emit --------------------------------------------------

#[test]
fn petgraph_compile_path_emits_bfs_plan() {
    let q = compile_fixtures::path("a", "b");
    match petgraph(&q) {
        PetgraphPlan::Bfs { roots, targets, max_hops, direction } => {
            assert_eq!(roots, vec!["a".to_string()]);
            assert_eq!(targets, vec!["b".to_string()]);
            assert!(max_hops.is_none());
            assert_eq!(direction, TraversalDirection::Both);
        }
        other => panic!("expected Bfs, got {other:?}"),
    }
}

#[test]
fn petgraph_compile_neighbors_incoming_emits_backward_plan() {
    let q = compile_fixtures::neighbors("a", 1, TraversalDirection::Incoming);
    let plan = petgraph(&q);
    assert!(
        matches!(plan, PetgraphPlan::BackwardRadius { .. }),
        "incoming must produce BackwardRadius: {plan:?}"
    );
}

#[test]
fn petgraph_compile_neighbors_both_emits_dual_plan() {
    let q = compile_fixtures::neighbors("a", 2, TraversalDirection::Both);
    let plan = petgraph(&q);
    assert!(matches!(plan, PetgraphPlan::DualRadius { .. }), "both must produce DualRadius: {plan:?}");
}

#[test]
fn petgraph_compile_neighbors_outgoing_emits_forward_plan() {
    let q = compile_fixtures::neighbors("a", 3, TraversalDirection::Outgoing);
    let plan = petgraph(&q);
    assert!(
        matches!(plan, PetgraphPlan::ForwardRadius { depth: 3, .. }),
        "outgoing must produce ForwardRadius(depth=3): {plan:?}"
    );
}

#[test]
fn petgraph_compile_subgraph_emits_dual_plan() {
    let q = compile_fixtures::subgraph("a", 3);
    let plan = petgraph(&q);
    assert!(matches!(plan, PetgraphPlan::DualRadius { depth: 3, .. }));
}

#[test]
fn petgraph_compile_cluster_scc_emits_detect_cycles() {
    let q = compile_fixtures::cluster(ClusterMethod::Scc);
    assert_eq!(petgraph(&q), PetgraphPlan::DetectCycles(ClusterMethod::Scc));
}

#[test]
fn petgraph_compile_cluster_connected_emits_detect_cycles() {
    let q = compile_fixtures::cluster(ClusterMethod::Connected);
    assert_eq!(petgraph(&q), PetgraphPlan::DetectCycles(ClusterMethod::Connected));
}

#[test]
fn petgraph_compile_explain_emits_explain_path_plan() {
    let q = compile_fixtures::explain("a", "b");
    match petgraph(&q) {
        PetgraphPlan::ExplainPath { from, to } => {
            assert_eq!(from, "a");
            assert_eq!(to, "b");
        }
        other => panic!("expected ExplainPath, got {other:?}"),
    }
}

// ---- Boolean composition -------------------------------------------

#[test]
fn compile_boolean_and_pg_emits_intersect() {
    let q = compile_fixtures::and(compile_fixtures::path("a", "b"), compile_fixtures::path("c", "d"));
    let sql = pg(&q);
    assert!(sql.to_ascii_uppercase().contains("INTERSECT"), "AND in PG must compile to INTERSECT: {sql}");
}

#[test]
fn compile_boolean_or_pg_emits_union() {
    let q = compile_fixtures::or(compile_fixtures::path("a", "b"), compile_fixtures::path("c", "d"));
    let sql = pg(&q);
    assert!(sql.to_ascii_uppercase().contains("UNION"), "OR in PG must compile to UNION: {sql}");
}

#[test]
fn compile_boolean_not_pg_emits_except() {
    let q = compile_fixtures::not(compile_fixtures::path("a", "b"));
    let sql = pg(&q);
    assert!(sql.to_ascii_uppercase().contains("EXCEPT"), "NOT in PG must compile to EXCEPT: {sql}");
}

#[test]
fn compile_boolean_petgraph_produces_composed_plan() {
    let q = compile_fixtures::and(compile_fixtures::path("a", "b"), compile_fixtures::path("c", "d"));
    match compile(&q, CompileTarget::Petgraph) {
        Ok(CompiledQuery::Composed(subs, op)) => {
            assert_eq!(subs.len(), 2);
            assert_eq!(op, BooleanOp::And);
        }
        Ok(other) => panic!("expected Composed, got {other:?}"),
        Err(e) => panic!("compile failed: {}", e.message()),
    }
}

// ---- Unknown variant rejection -------------------------------------

#[test]
fn compile_unsupported_target_returns_error() {
    let q = compile_fixtures::find_symbols();
    match compile(&q, CompileTarget::Postgres) {
        Err(CompileError::UnsupportedVariant(_)) => {}
        Err(other) => panic!("expected UnsupportedVariant, got {other:?}"),
        Ok(other) => panic!("expected an error, got {other:?}"),
    }
}

// ---- Parity tests on the fixture graph -----------------------------

#[test]
fn parity_path_pg_vs_petgraph() {
    let q = compile_fixtures::path_with_max_hops("1", "4", 3);
    let pgc = compile(&q, CompileTarget::Postgres).expect("ok");
    let pet = compile(&q, CompileTarget::Petgraph).expect("ok");
    match (pgc, pet) {
        (
            CompiledQuery::Postgres(sql),
            CompiledQuery::Petgraph(PetgraphPlan::Bfs { roots, targets, max_hops, .. }),
        ) => {
            assert!(sql.contains("$1") && sql.contains("$2"));
            assert_eq!(roots, vec!["1".to_string()]);
            assert_eq!(targets, vec!["4".to_string()]);
            assert_eq!(max_hops, Some(3));
        }
        (a, b) => panic!("parity broken: {a:?} vs {b:?}"),
    }
}

#[test]
fn parity_neighbors_pg_vs_petgraph() {
    let q = compile_fixtures::neighbors("1", 2, TraversalDirection::Both);
    let pgc = compile(&q, CompileTarget::Postgres).expect("ok");
    let pet = compile(&q, CompileTarget::Petgraph).expect("ok");
    match (pgc, pet) {
        (CompiledQuery::Postgres(_), CompiledQuery::Petgraph(PetgraphPlan::DualRadius { root, depth })) => {
            assert_eq!(root, "1");
            assert_eq!(depth, 2);
        }
        (a, b) => panic!("parity broken: {a:?} vs {b:?}"),
    }
}

#[test]
fn parity_subgraph_pg_vs_petgraph() {
    let q = compile_fixtures::subgraph("1", 3);
    let pgc = compile(&q, CompileTarget::Postgres).expect("ok");
    let pet = compile(&q, CompileTarget::Petgraph).expect("ok");
    match (pgc, pet) {
        (CompiledQuery::Postgres(_), CompiledQuery::Petgraph(PetgraphPlan::DualRadius { root, depth })) => {
            assert_eq!(root, "1");
            assert_eq!(depth, 3);
        }
        (a, b) => panic!("parity broken: {a:?} vs {b:?}"),
    }
}

#[test]
fn parity_cluster_pg_vs_petgraph() {
    let q = compile_fixtures::cluster(ClusterMethod::Scc);
    let pgc = compile(&q, CompileTarget::Postgres).expect("ok");
    let pet = compile(&q, CompileTarget::Petgraph).expect("ok");
    match (pgc, pet) {
        (CompiledQuery::Postgres(_), CompiledQuery::Petgraph(PetgraphPlan::DetectCycles(m))) => {
            assert_eq!(m, ClusterMethod::Scc);
        }
        (a, b) => panic!("parity broken: {a:?} vs {b:?}"),
    }
}

// ---- Exact statements ----------------------------------------------

#[test]
fn compile_path_exact_sql() {
    let q = compile_fixtures::path_with_max_hops("a", "b", 3);
    assert_eq!(
        pg(&q),
        "WITH RECURSIVE search_path(node, depth) AS (\n  SELECT $1::text, 0\n  UNION\n  \
         SELECT edges.to::text, search_path.depth + 1\n  FROM edges INNER JOIN search_path ON \
         edges.from = search_path.node\n  WHERE depth < 3\n)\nSELECT node FROM search_path \
         WHERE node = $2::text LIMIT 1"
    );
}

#[test]
fn compile_where_conditions_bind_from_three_upwards() {
    let mut path = match p("PATH FROM a TO b") {
        MoldQLQuery::Path(pq) => pq,
        _ => panic!(),
    };
    path.conditions.push(compile_fixtures::cond_provenance("lsp", "rust"));
    path.conditions.push(compile_fixtures::cond_confidence_gte("0.5"));
    let sql = pg(&MoldQLQuery::Path(path));
    assert!(
        sql.ends_with(
            "WHERE node = $2::text AND provenance->>$3::text = $4::text AND confidence >= $5::floatLIMIT 1"
        ),
        "{sql}"
    );
    assert!(!sql.contains("rust"), "{sql}");
    assert!(!sql.contains("lsp"), "{sql}");
    assert!(!sql.contains("0.5"), "{sql}");
    assert!(!sql.contains('\''), "{sql}");
}

#[test]
fn compile_provenance_source_is_bound_not_inlined() {
    let mut path = match p("PATH FROM a TO b") {
        MoldQLQuery::Path(pq) => pq,
        _ => panic!(),
    };
    path.conditions.push(compile_fixtures::cond_provenance("x' OR 1=1; --", "v"));
    let sql = pg(&MoldQLQuery::Path(path));
    assert!(!sql.contains('\''), "{sql}");
    assert!(!sql.contains("OR 1=1"), "{sql}");
}

#[test]
fn compile_refuses_fields_sql_has_not() {
    let q = p("CLUSTER METHOD scc WHERE kind == \"x; DROP TABLE edges\"");
    match compile(&q, CompileTarget::Postgres) {
        Err(CompileError::InvalidQuery(m)) => {
            assert_eq!(m, "WHERE on Postgres only tests provenance.<source> and confidence")
        }
        other => panic!("expected InvalidQuery, got {other:?}"),
    }
    // The in-memory walk takes any field.
    assert!(compile(&q, CompileTarget::Petgraph).is_ok());
}

#[test]
fn compile_neighbors_one_hop_exact_sql() {
    let q = compile_fixtures::neighbors("a", 1, TraversalDirection::Incoming);
    assert_eq!(
        pg(&q),
        "SELECT DISTINCT CASE WHEN edges.from = $1::text THEN edges.to ELSE edges.from END AS node \
         FROM edges WHERE edges.to = $1::text "
    );
}

#[test]
fn compile_boolean_not_exact_sql() {
    let q = compile_fixtures::not(compile_fixtures::cluster(ClusterMethod::Connected));
    assert_eq!(
        pg(&q),
        "(SELECT node FROM all_nodes) EXCEPT (SELECT component_id, array_agg(node ORDER BY node) \
         AS members\n  FROM find_connected_components() \n  GROUP BY component_id ORDER BY \
         component_id)"
    );
}

#[test]
fn compile_boolean_numbers_placeholders_across_operands() {
    let mut left = match p("CLUSTER METHOD scc") {
        MoldQLQuery::Cluster(c) => c,
        _ => panic!(),
    };
    left.conditions.push(compile_fixtures::cond_confidence_gte("0.3"));
    let mut right = match p("CLUSTER METHOD scc") {
        MoldQLQuery::Cluster(c) => c,
        _ => panic!(),
    };
    right.conditions.push(compile_fixtures::cond_confidence_gte("0.7"));
    let q = compile_fixtures::or(MoldQLQuery::Cluster(left), MoldQLQuery::Cluster(right));
    let sql = pg(&q);
    assert!(sql.contains("confidence >= $3::float"), "{sql}");
    assert!(sql.contains("confidence >= $4::float"), "{sql}");
}

#[test]
fn compile_explore_and_pattern_are_refused() {
    let e = p("EXPLORE foo THROUGH callers DEPTH 2");
    match compile(&e, CompileTarget::Petgraph) {
        Err(err) => assert_eq!(
            err.message(),
            "unsupported variant: EXPLORE executes through MoldQLExecutor, not through compile()"
        ),
        Ok(other) => panic!("expected an error, got {other:?}"),
    }
}

#[test]
fn compile_boolean_with_refused_operand_fails() {
    let q = compile_fixtures::and(compile_fixtures::path("a", "b"), compile_fixtures::find_symbols());
    assert!(matches!(
        compile(&q, CompileTarget::Postgres),
        Err(CompileError::UnsupportedVariant(_))
    ));
}

#[test]
fn compile_error_messages() {
    assert_eq!(CompileError::InvalidQuery("x".to_string()).message(), "invalid query: x");
    assert_eq!(CompileError::UnsupportedVariant("y").message(), "unsupported variant: y");
}

#[test]
fn legacy_compile_petgraph_uses_compile_to_plan() {
    let q = compile_fixtures::path("a", "b");
    let c = compile(&q, CompileTarget::Petgraph).expect("compile should succeed");
    match c {
        CompiledQuery::Petgraph(plan) => {
            assert!(matches!(plan, PetgraphPlan::Bfs { .. }));
        }
        other => panic!("expected Petgraph, got {other:?}"),
    }
}

#[test]
fn compile_fn_still_works_with_deprecation() {
    let q = compile_fixtures::path("a", "b");
    let result = compile(&q, CompileTarget::Petgraph);
    assert!(result.is_ok(), "deprecated compile() should still work");
}

#[test]
fn compile_to_plan_with_confidence_filter_uses_parameterized_sql() {
    let path = PathQuery {
        from: "a".into(),
        to: "b".into(),
        max_hops: None,
        conditions: vec![Condition {
            field: Field::single("confidence"),
            op: Op::Gte,
            value: Value::Number(0.5f64.to_string()),
        }],
    };
    let q = MoldQLQuery::Path(path);
    let c = compile(&q, CompileTarget::Postgres).expect("compile should succeed");
    let CompiledQuery::Postgres(sql) = c else { panic!("expected Postgres") };
    assert!(
        sql.to_ascii_uppercase().contains("CONFIDENCE"),
        "SQL should contain CONFIDENCE predicate: {sql}"
    );
    assert!(!sql.contains("0.5"), "confidence value should not appear as literal in SQL: {sql}");
}

#[test]
fn sql_is_the_same_whatever_the_bound_values() {
    let a = pg(&compile_fixtures::path_with_max_hops("alpha", "beta", 4));
    let b = pg(&compile_fixtures::path_with_max_hops("x' OR 1=1", "y", 4));
    assert_eq!(a, b);
    let mut left = match p("NEIGHBORS a DEPTH 2") {
        MoldQLQuery::Neighbors(n) => n,
        _ => panic!(),
    };
    let mut right = match p("NEIGHBORS zzz DEPTH 2") {
        MoldQLQuery::Neighbors(n) => n,
        _ => panic!(),
    };
    left.conditions.push(compile_fixtures::cond_provenance("lsp", "rust"));
    right.conditions.push(compile_fixtures::cond_provenance("lsp", "go"));
    let l = compile_fixtures::not(MoldQLQuery::Neighbors(left));
    let r = compile_fixtures::not(MoldQLQuery::Neighbors(right));
    assert_eq!(pg(&l), pg(&r));
}
