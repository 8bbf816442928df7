//! Counts and wire constants of protocol route ingestion.
//!
//! A batch upsert walks routes, then edges; each upsert reports whether
//! it created a row (`true`) or updated one (`false`), and the batch
//! counts both per kind. The edge-kind and protocol constants match the
//! storage layer's CHECK constraints.

use vstd::prelude::*;

verus! {

pub const EDGE_KIND_HTTP_CALLS: &'static str = "http_calls";
pub const EDGE_KIND_GRAPHQL_CALLS: &'static str = "graphql_calls";
pub const EDGE_KIND_GRPC_CALLS: &'static str = "grpc_calls";
pub const EDGE_KIND_TRPC_CALLS: &'static str = "trpc_calls";

pub const PROTOCOL_HTTP: &'static str = "http";
pub const PROTOCOL_GRAPHQL: &'static str = "graphql";
pub const PROTOCOL_GRPC: &'static str = "grpc";
pub const PROTOCOL_TRPC: &'static str = "trpc";

/// Counts from a batch upsert.
#[derive(Debug, Clone, Copy, Default, PartialEq, Eq, Structural)]
pub struct BatchStats {
    pub routes_created: usize,
    pub routes_updated: usize,
    pub edges_created: usize,
    pub edges_updated: usize,
}

impl BatchStats {
    /// Sum of the four counts.
    pub open spec fn total(&self) -> int {
        self.routes_created + self.routes_updated + self.edges_created + self.edges_updated
    }

    /// Total number of rows touched (created + updated) in the batch.
    pub fn total_touched(&self) -> (r: usize)
        requires
            self.total() <= usize::MAX,
        ensures
            r == self.total(),
    {
        self.routes_created + self.routes_updated + self.edges_created + self.edges_updated
    }

    /// Counts one route upsert: `created` says whether it made a row.
    pub fn record_route(&mut self, created: bool)
        requires
            old(self).total() < usize::MAX,
        ensures
            created ==> *final(self) == (BatchStats {
                routes_created: (old(self).routes_created + 1) as usize,
                ..*old(self)
            }),
            !created ==> *final(self) == (BatchStats {
                routes_updated: (old(self).routes_updated + 1) as usize,
                ..*old(self)
            }),
    {
        if created {
            self.routes_created = self.routes_created + 1;
        } else {
            self.routes_updated = self.routes_updated + 1;
        }
    }

    /// Counts one edge upsert: `created` says whether it made a row.
    pub fn record_edge(&mut self, created: bool)
        requires
            old(self).total() < usize::MAX,
        ensures
            created ==> *final(self) == (BatchStats {
                edges_created: (old(self).edges_created + 1) as usize,
                ..*old(self)
            }),
            !created ==> *final(self) == (BatchStats {
                edges_updated: (old(self).edges_updated + 1) as usize,
                ..*old(self)
            }),
    {
        if created {
            self.edges_created = self.edges_created + 1;
        } else {
            self.edges_updated = self.edges_updated + 1;
        }
    }
}

/// Every recorded upsert adds exactly one to the total.
pub proof fn law_record_adds_one(before: BatchStats, after: BatchStats, created: bool, route: bool)
    requires
        route && created ==> after == (BatchStats {
            routes_created: (before.routes_created + 1) as usize,
            ..before
        }),
        route && !created ==> after == (BatchStats {
            routes_updated: (before.routes_updated + 1) as usize,
            ..before
        }),
        !route && created ==> after == (BatchStats {
            edges_created: (before.edges_created + 1) as usize,
            ..before
        }),
        !route && !created ==> after == (BatchStats {
            edges_updated: (before.edges_updated + 1) as usize,
            ..before
        }),
        before.total() < usize::MAX,
    ensures
        after.total() == before.total() + 1,
{
}

} // verus!
