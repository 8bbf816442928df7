use cognicode_explorer::moldql::ast::{
    Aggregation, Binding, BooleanOp, BooleanQuery, ClusterMethod, ClusterQuery, Direction,
    EdgeDirection, EdgePattern, ExplainQuery, Field, MoldQLQuery, NeighborsQuery, Op,
    OrderClause, OrderDirection, PathQuantifier, PathQuery, PatternOp, PatternPredicate,
    PatternProjection, PatternQuery, PatternValue, PredicateTarget, RowField, SubgraphQuery,
    TargetType, TraversalDirection,
};

#[test]
fn traversal_direction_keyword() {
    assert_eq!(TraversalDirection::Incoming.keyword(), "incoming");
    assert_eq!(TraversalDirection::Outgoing.keyword(), "outgoing");
    assert_eq!(TraversalDirection::Both.keyword(), "both");
}

#[test]
fn cluster_method_keyword() {
    assert_eq!(ClusterMethod::Scc.keyword(), "scc");
    assert_eq!(ClusterMethod::Connected.keyword(), "connected");
}

#[test]
fn boolean_op_keyword() {
    assert_eq!(BooleanOp::And.keyword(), "AND");
    assert_eq!(BooleanOp::Or.keyword(), "OR");
    assert_eq!(BooleanOp::Not.keyword(), "NOT");
}

#[test]
fn pattern_path_quantifier_bounded() {
    let q = PathQuantifier::new(Some(3), 1).unwrap();
    assert_eq!(q.max_hops, Some(3));
    assert_eq!(q.min_hops, 1);
}

#[test]
fn pattern_path_quantifier_unbounded_rejected() {
    let q = PathQuantifier::new(None, 0);
    assert!(q.is_none());
}

#[test]
fn pattern_path_quantifier_optional() {
    let q = PathQuantifier::optional();
    assert_eq!(q.max_hops, Some(1));
    assert_eq!(q.min_hops, 0);
}

#[test]
fn pattern_path_quantifier_plus() {
    let q = PathQuantifier::plus(4);
    assert_eq!(q.max_hops, Some(4));
    assert_eq!(q.min_hops, 1);
}

#[test]
fn pattern_projection_row_with_ordering() {
    let proj = PatternProjection::Row {
        fields: vec![RowField::AggregationRef { name: "calls".into() }],
        group_by: vec!["f.module".into()],
        aggregations: vec![Aggregation::Count { binding: Some("c".into()), alias: "calls".into() }],
        ordering: Some(OrderClause { by: "calls".into(), direction: OrderDirection::Desc }),
        limit: Some(5),
    };
    if let PatternProjection::Row { ordering, limit, .. } = &proj {
        assert!(ordering.is_some());
        assert_eq!(*limit, Some(5));
    }
}

#[test]
fn edge_direction_variants() {
    let _ = EdgeDirection::Outgoing;
    let _ = EdgeDirection::Incoming;
    let _ = EdgeDirection::Both;
}

#[test]
fn predicate_target_variants() {
    let _ = PredicateTarget::Node("x".into());
    let _ = PredicateTarget::Edge("e".into());
    let _ = PredicateTarget::Anonymous;
}

#[test]
fn target_type_keywords() {
    assert_eq!(TargetType::Symbols.keyword(), "symbols");
    assert_eq!(TargetType::Files.keyword(), "files");
    assert_eq!(TargetType::Scopes.keyword(), "scopes");
    assert_eq!(TargetType::Issues.keyword(), "issues");
}

#[test]
fn op_symbols() {
    assert_eq!(Op::Gt.symbol(), ">");
    assert_eq!(Op::Gte.symbol(), ">=");
    assert_eq!(Op::Lt.symbol(), "<");
    assert_eq!(Op::Lte.symbol(), "<=");
    assert_eq!(Op::Eq.symbol(), "==");
    assert_eq!(Op::Neq.symbol(), "!=");
    assert_eq!(Op::Contains.symbol(), "~");
}

#[test]
fn direction_keywords() {
    assert_eq!(Direction::Callers.keyword(), "callers");
    assert_eq!(Direction::Callees.keyword(), "callees");
}

#[test]
fn field_head_and_tail() {
    let f = Field::single("fan_in");
    assert_eq!(f.parts, vec!["fan_in".to_string()]);
    assert_eq!(f.head(), "fan_in");
    assert_eq!(f.tail(), None);
    let d = Field::dotted("quality", "critical");
    assert_eq!(d.head(), "quality");
    assert_eq!(d.tail(), Some("critical"));
    let empty = Field { parts: Vec::new() };
    assert_eq!(empty.head(), "");
    assert_eq!(empty.tail(), None);
}

#[test]
fn query_variants_roundtrip() {
    let path = MoldQLQuery::Path(PathQuery {
        from: "a".to_string(),
        to: "b".to_string(),
        max_hops: Some(3),
        conditions: Vec::new(),
    });
    let neighbors = MoldQLQuery::Neighbors(NeighborsQuery {
        root: "a".to_string(),
        depth: 2,
        direction: TraversalDirection::Both,
        conditions: Vec::new(),
    });
    let subgraph = MoldQLQuery::Subgraph(SubgraphQuery {
        root: "a".to_string(),
        depth: 3,
        direction: TraversalDirection::Both,
        conditions: Vec::new(),
    });
    let cluster = MoldQLQuery::Cluster(ClusterQuery {
        method: ClusterMethod::Scc,
        conditions: Vec::new(),
    });
    let explain = MoldQLQuery::Explain(ExplainQuery {
        from: "a".to_string(),
        to: "b".to_string(),
        conditions: Vec::new(),
    });
    let boolean = MoldQLQuery::Boolean(BooleanQuery {
        op: BooleanOp::And,
        operands: vec![path.clone(), neighbors.clone()],
    });

    // Debug + Clone + PartialEq
    for q in [
        path.clone(),
        neighbors.clone(),
        subgraph.clone(),
        cluster.clone(),
        explain.clone(),
        boolean.clone(),
    ] {
        let _ = format!("{q:?}");
        let cloned = q.clone();
        assert_eq!(q, cloned);
    }

    // Pattern-matchable
    assert!(matches!(path, MoldQLQuery::Path(_)));
    assert!(matches!(neighbors, MoldQLQuery::Neighbors(_)));
    assert!(matches!(subgraph, MoldQLQuery::Subgraph(_)));
    assert!(matches!(cluster, MoldQLQuery::Cluster(_)));
    assert!(matches!(explain, MoldQLQuery::Explain(_)));
    assert!(matches!(boolean, MoldQLQuery::Boolean(_)));
}

#[test]
fn path_query_default_max_hops_is_none() {
    let q = PathQuery {
        from: "a".into(),
        to: "b".into(),
        max_hops: None,
        conditions: Vec::new(),
    };
    assert!(q.max_hops.is_none());
    assert!(q.conditions.is_empty());
}

#[test]
fn subgraph_query_defaults() {
    let q = SubgraphQuery {
        root: "a".into(),
        depth: 3,
        direction: TraversalDirection::Both,
        conditions: Vec::new(),
    };
    assert_eq!(q.depth, 3);
    assert_eq!(q.direction, TraversalDirection::Both);
}

#[test]
fn cluster_query_defaults() {
    let q = ClusterQuery {
        method: ClusterMethod::Scc,
        conditions: Vec::new(),
    };
    assert_eq!(q.method, ClusterMethod::Scc);
    assert!(q.conditions.is_empty());
}

#[test]
fn boolean_query_keeps_nested_operands() {
    let inner = MoldQLQuery::Path(PathQuery {
        from: "a".into(),
        to: "b".into(),
        max_hops: None,
        conditions: Vec::new(),
    });
    let q = BooleanQuery {
        op: BooleanOp::Or,
        operands: vec![
            MoldQLQuery::Boolean(BooleanQuery {
                op: BooleanOp::And,
                operands: vec![inner.clone(), inner.clone()],
            }),
            inner,
        ],
    };
    assert_eq!(q.op, BooleanOp::Or);
    assert_eq!(q.operands.len(), 2);
    assert!(matches!(
        q.operands[0],
        MoldQLQuery::Boolean(BooleanQuery {
            op: BooleanOp::And,
            ..
        })
    ));
}

#[test]
fn boolean_query_not_holds_single_operand() {
    let inner = MoldQLQuery::Path(PathQuery {
        from: "a".into(),
        to: "b".into(),
        max_hops: None,
        conditions: Vec::new(),
    });
    let q = BooleanQuery {
        op: BooleanOp::Not,
        operands: vec![inner],
    };
    assert_eq!(q.op, BooleanOp::Not);
    assert_eq!(q.operands.len(), 1);
}

#[test]
fn pattern_query_roundtrip() {
    let q = PatternQuery {
        shortest: true,
        bindings: vec![
            Binding { name: Some("r".into()), kind: "Route".into() },
            Binding { name: Some("f".into()), kind: "Function".into() },
        ],
        edges: vec![EdgePattern {
            name: Some("c".into()),
            kind: "Calls".into(),
            quantifier: PathQuantifier::new(Some(3), 1).unwrap(),
            direction: EdgeDirection::Outgoing,
        }],
        predicates: vec![],
        projection: PatternProjection::Path {
            bindings: vec!["r".into(), "c".into(), "f".into()],
        },
    };
    let cloned = q.clone();
    assert_eq!(q, cloned);
    let _ = format!("{q:?}");
}

#[test]
fn moldql_query_pattern_variant() {
    let q = MoldQLQuery::Pattern(PatternQuery {
        shortest: false,
        bindings: vec![],
        edges: vec![],
        predicates: vec![],
        projection: PatternProjection::Node { binding: "x".into() },
    });
    assert!(matches!(q, MoldQLQuery::Pattern(_)));
}

#[test]
fn pattern_predicate_property() {
    let pred = PatternPredicate::Property {
        target: PredicateTarget::Node("n".into()),
        field: "module".into(),
        op: PatternOp::Eq,
        value: PatternValue::String("core".into()),
    };
    let cloned = pred.clone();
    assert_eq!(pred, cloned);
}

