use cognicode_explorer::ports::edge_emitter::{
    BatchStats, EDGE_KIND_GRAPHQL_CALLS, EDGE_KIND_GRPC_CALLS, EDGE_KIND_HTTP_CALLS,
    EDGE_KIND_TRPC_CALLS, PROTOCOL_GRAPHQL, PROTOCOL_GRPC, PROTOCOL_HTTP, PROTOCOL_TRPC,
};

#[test]
fn edge_kind_constants_match_sql_check() {
    assert_eq!(EDGE_KIND_HTTP_CALLS, "http_calls");
    assert_eq!(EDGE_KIND_GRAPHQL_CALLS, "graphql_calls");
    assert_eq!(EDGE_KIND_GRPC_CALLS, "grpc_calls");
    assert_eq!(EDGE_KIND_TRPC_CALLS, "trpc_calls");
}

#[test]
fn protocol_constants_match_sql_check() {
    assert_eq!(PROTOCOL_HTTP, "http");
    assert_eq!(PROTOCOL_GRAPHQL, "graphql");
    assert_eq!(PROTOCOL_GRPC, "grpc");
    assert_eq!(PROTOCOL_TRPC, "trpc");
}

#[test]
fn batch_stats_total_touched() {
    let stats = BatchStats { routes_created: 5, routes_updated: 2, edges_created: 7, edges_updated: 1 };
    assert_eq!(stats.total_touched(), 15);
}

#[test]
fn batch_stats_records_each_upsert() {
    let mut stats = BatchStats::default();
    stats.record_route(true);
    stats.record_route(false);
    stats.record_route(true);
    stats.record_edge(false);
    assert_eq!(
        stats,
        BatchStats { routes_created: 2, routes_updated: 1, edges_created: 0, edges_updated: 1 }
    );
    assert_eq!(stats.total_touched(), 4);
}
