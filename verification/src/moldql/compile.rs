//! Compiles a parsed ExplorerQL query into a target-specific plan:
//! parameterised SQL for Postgres, or a typed walk plan for the in-memory
//! graph. Boolean queries compile operand by operand.
//!
//! User values never enter the SQL body: the object references are bound
//! as `$1` / `$2`, and each `WHERE` condition binds its value to the next
//! placeholder, counting from `$3` within one compiled query.

use vstd::prelude::*;
use crate::text::{owned, concat, append, u64_to_string, decimal, chars_of, is_lit};
use crate::moldql::ast::{
    BooleanOp, ClusterMethod, ClusterQuery, ClusterV, Condition, ConditionV, ExplainQuery,
    ExplainV, Field, MoldQLQuery, NeighborsQuery, PathQuery, PathV, QueryV, RootedV,
    SubgraphQuery, TraversalDirection, conditions_view, op_symbol, strings_view,
};

verus! {

/// Where a compiled query runs.
#[derive(Debug, Clone, Copy, PartialEq, Eq, Structural)]
pub enum CompileTarget {
    /// Parameterised SQL, run through the Postgres adapter.
    Postgres,
    /// A typed plan, walked over the in-memory call graph.
    Petgraph,
}

/// Why a query does not compile.
#[derive(Debug, Clone, PartialEq, Eq)]
pub enum CompileError {
    /// The query kind has no plan on this path.
    UnsupportedVariant(&'static str),
    /// A sub-query is malformed.
    InvalidQuery(String),
}

pub enum CompileErrorV {
    UnsupportedVariant(Seq<char>),
    InvalidQuery(Seq<char>),
}

impl View for CompileError {
    type V = CompileErrorV;

    open spec fn view(&self) -> CompileErrorV {
        match self {
            CompileError::UnsupportedVariant(m) => CompileErrorV::UnsupportedVariant(m@),
            CompileError::InvalidQuery(m) => CompileErrorV::InvalidQuery(m@),
        }
    }
}

impl CompileError {
    /// The error as text.
    pub fn message(&self) -> (r: String)
        ensures
            r@ == match self@ {
                CompileErrorV::UnsupportedVariant(m) => "unsupported variant: "@ + m,
                CompileErrorV::InvalidQuery(m) => "invalid query: "@ + m,
            },
    {
        match self {
            CompileError::UnsupportedVariant(m) => concat("unsupported variant: ", m),
            CompileError::InvalidQuery(m) => concat("invalid query: ", m.as_str()),
        }
    }
}

/// A typed walk plan, one kind per graph primitive.
#[derive(Debug, Clone, PartialEq)]
pub enum PetgraphPlan {
    /// Find a path from the roots to the targets.
    Bfs {
        roots: Vec<String>,
        targets: Vec<String>,
        max_hops: Option<u32>,
        direction: TraversalDirection,
    },
    /// Walk outgoing edges.
    ForwardRadius { root: String, depth: u32, direction: TraversalDirection },
    /// Walk incoming edges.
    BackwardRadius { root: String, depth: u32, direction: TraversalDirection },
    /// Walk both ways.
    DualRadius { root: String, depth: u32 },
    /// Strongly or weakly connected components.
    DetectCycles(ClusterMethod),
    /// The exact path between two objects.
    ExplainPath { from: String, to: String },
}

pub enum PlanV {
    Bfs {
        roots: Seq<Seq<char>>,
        targets: Seq<Seq<char>>,
        max_hops: Option<u32>,
        direction: TraversalDirection,
    },
    ForwardRadius { root: Seq<char>, depth: u32, direction: TraversalDirection },
    BackwardRadius { root: Seq<char>, depth: u32, direction: TraversalDirection },
    DualRadius { root: Seq<char>, depth: u32 },
    DetectCycles(ClusterMethod),
    ExplainPath { from: Seq<char>, to: Seq<char> },
}

impl View for PetgraphPlan {
    type V = PlanV;

    open spec fn view(&self) -> PlanV {
        match self {
            PetgraphPlan::Bfs { roots, targets, max_hops, direction } => PlanV::Bfs {
                roots: roots@.map_values(|x: String| x@),
                targets: targets@.map_values(|x: String| x@),
                max_hops: *max_hops,
                direction: *direction,
            },
            PetgraphPlan::ForwardRadius { root, depth, direction } => PlanV::ForwardRadius {
                root: root@,
                depth: *depth,
                direction: *direction,
            },
            PetgraphPlan::BackwardRadius { root, depth, direction } => PlanV::BackwardRadius {
                root: root@,
                depth: *depth,
                direction: *direction,
            },
            PetgraphPlan::DualRadius { root, depth } => PlanV::DualRadius {
                root: root@,
                depth: *depth,
            },
            PetgraphPlan::DetectCycles(m) => PlanV::DetectCycles(*m),
            PetgraphPlan::ExplainPath { from, to } => PlanV::ExplainPath { from: from@, to: to@ },
        }
    }
}

/// What the executor receives.
#[derive(Debug, PartialEq)]
pub enum CompiledQuery {
    /// Parameterised SQL.
    Postgres(String),
    /// A typed walk plan.
    Petgraph(PetgraphPlan),
    /// Compiled operands joined by a boolean operator.
    Composed(Vec<CompiledQuery>, BooleanOp),
}

pub enum CompiledV {
    Postgres(Seq<char>),
    Petgraph(PlanV),
    Composed(Seq<CompiledV>, BooleanOp),
}

pub open spec fn compiled_view(c: CompiledQuery) -> CompiledV
    decreases c,
{
    match c {
        CompiledQuery::Postgres(s) => CompiledV::Postgres(s@),
        CompiledQuery::Petgraph(p) => CompiledV::Petgraph(p@),
        CompiledQuery::Composed(subs, op) => CompiledV::Composed(
            Seq::new(
                subs@.len(),
                |i: int|
                    {
                        if 0 <= i < subs@.len() {
                            proof {
                                assert(decreases_to!(subs => subs@));
                            }
                            compiled_view(subs@[i])
                        } else {
                            CompiledV::Postgres(Seq::empty())
                        }
                    },
            ),
            op,
        ),
    }
}

impl View for CompiledQuery {
    type V = CompiledV;

    open spec fn view(&self) -> CompiledV {
        compiled_view(*self)
    }
}

proof fn lemma_composed_view(subs: Vec<CompiledQuery>, op: BooleanOp)
    ensures
        compiled_view(CompiledQuery::Composed(subs, op)) == CompiledV::Composed(
            subs@.map_values(|c: CompiledQuery| c@),
            op,
        ),
{
    let v = compiled_view(CompiledQuery::Composed(subs, op));
    match v {
        CompiledV::Composed(xs, o) => {
            assert(xs =~= subs@.map_values(|c: CompiledQuery| c@));
        },
        _ => {},
    }
}

// ---------------------------------------------------------------------------
// WHERE rendering
// ---------------------------------------------------------------------------

/// The first placeholder a `WHERE` condition binds: `$1` and `$2` hold the
/// object references.
pub const FIRST_CONDITION_INDEX: u32 = 3;

/// The placeholder index after `n`; the counter wraps like a `u32`.
pub open spec fn next_index(n: u32) -> u32 {
    if n == u32::MAX {
        0
    } else {
        (n + 1) as u32
    }
}

/// The parts of a field joined with `.`.
pub open spec fn dotted(parts: Seq<Seq<char>>) -> Seq<char>
    decreases parts.len(),
{
    if parts.len() == 0 {
        Seq::empty()
    } else if parts.len() == 1 {
        parts[0]
    } else {
        dotted(parts.drop_last()) + "."@ + parts.last()
    }
}

/// A `provenance.<source>` field: the source names a key of the edge's
/// provenance map.
pub open spec fn is_provenance_field(f: Seq<Seq<char>>) -> bool {
    f.len() > 1 && f[0] == "provenance"@
}

/// A `confidence` field: the edge's confidence.
pub open spec fn is_confidence_field(f: Seq<Seq<char>>) -> bool {
    f.len() > 0 && f[0] == "confidence"@ && !is_provenance_field(f)
}

/// The fields a `WHERE` condition may test in SQL: a provenance key or
/// the confidence. No other name is an edge column.
pub open spec fn pg_field_ok(f: Seq<Seq<char>>) -> bool {
    is_provenance_field(f) || is_confidence_field(f)
}

/// Every condition tests a field that SQL has.
pub open spec fn pg_fields_ok(cs: Seq<ConditionV>) -> bool {
    forall|i: int| 0 <= i < cs.len() ==> pg_field_ok(#[trigger] cs[i].field)
}

/// The placeholder after the ones a condition binds from `$n`: two for a
/// provenance test (the key and the value), one for a confidence test.
pub open spec fn after_condition(c: ConditionV, n: u32) -> u32 {
    if is_provenance_field(c.field) {
        next_index(next_index(n))
    } else {
        next_index(n)
    }
}

/// One condition as SQL, binding from `$n`: a provenance test looks up
/// the key bound to `$n` and compares it with the value bound to the
/// next placeholder; a confidence test compares with the value bound to
/// `$n`. No user text reaches the statement.
pub open spec fn condition_sql(c: ConditionV, n: u32) -> Seq<char> {
    if is_provenance_field(c.field) {
        "provenance->>$"@ + decimal(n as nat) + "::text = $"@ + decimal(next_index(n) as nat)
            + "::text"@
    } else {
        "confidence "@ + op_symbol(c.op) + " $"@ + decimal(n as nat) + "::float"@
    }
}

/// The conditions joined with ` AND `, the first binding from `$n` and
/// each next one from the placeholder after the previous; gives the text
/// and the placeholder after the last.
pub open spec fn conditions_sql(cs: Seq<ConditionV>, n: u32) -> (Seq<char>, u32)
    decreases cs.len(),
{
    if cs.len() == 0 {
        (Seq::empty(), n)
    } else {
        let (prefix, m) = conditions_sql(cs.drop_last(), n);
        let part = condition_sql(cs.last(), m);
        (if cs.len() == 1 {
            part
        } else {
            prefix + " AND "@ + part
        }, after_condition(cs.last(), m))
    }
}

/// The `WHERE` tail of a statement: empty without conditions, else `AND `
/// and the conditions.
pub open spec fn where_sql(cs: Seq<ConditionV>, n: u32) -> (Seq<char>, u32) {
    if cs.len() == 0 {
        (Seq::empty(), n)
    } else {
        ("AND "@ + conditions_sql(cs, n).0, conditions_sql(cs, n).1)
    }
}

fn index_text(n: u32) -> (r: String)
    ensures
        r@ == decimal(n as nat),
{
    u64_to_string(n as u64)
}

/// The field is a provenance key: `provenance` and at least one more
/// part.
fn provenance_field(f: &Field) -> (r: bool)
    ensures
        r == is_provenance_field(f@),
{
    let hc = chars_of(f.head());
    proof {
        reveal_strlit("");
    }
    is_lit(&hc, "provenance") && f.parts.len() > 1
}

/// The field is one SQL can test.
fn pg_field_supported(f: &Field) -> (r: bool)
    ensures
        r == pg_field_ok(f@),
{
    if provenance_field(f) {
        return true;
    }
    assert(!is_provenance_field(f@));
    let h = f.head();
    let hc = chars_of(h);
    let r = is_lit(&hc, "confidence");
    proof {
        reveal_strlit("");
        reveal_strlit("confidence");
        if f@.len() == 0 {
            assert(h@.len() == 0);
            assert(!r);
        } else {
            assert(h@ == f@[0]);
        }
    }
    r
}

/// Every condition tests a field SQL can test.
fn pg_fields_supported(cs: &Vec<Condition>) -> (r: bool)
    ensures
        r == pg_fields_ok(conditions_view(*cs)),
{
    let ghost v = conditions_view(*cs);
    let mut i: usize = 0;
    while i < cs.len()
        invariant
            i <= cs.len(),
            v == conditions_view(*cs),
            forall|k: int| 0 <= k < i ==> pg_field_ok(#[trigger] v[k].field),
        decreases cs.len() - i,
    {
        assert(v[i as int] == cs@[i as int]@);
        if !pg_field_supported(&cs[i].field) {
            assert(!pg_field_ok(v[i as int].field));
            return false;
        }
        i = i + 1;
    }
    true
}

fn render_condition(c: &Condition, n: u32) -> (r: String)
    ensures
        r@ == condition_sql(c@, n),
{
    if provenance_field(&c.field) {
        let mut r = owned("provenance->>$");
        let a = index_text(n);
        append(&mut r, a.as_str());
        append(&mut r, "::text = $");
        let b = index_text(bump(n));
        append(&mut r, b.as_str());
        append(&mut r, "::text");
        r
    } else {
        let mut r = concat("confidence ", c.op.symbol());
        append(&mut r, " $");
        let a = index_text(n);
        append(&mut r, a.as_str());
        append(&mut r, "::float");
        r
    }
}

fn bump(n: u32) -> (r: u32)
    ensures
        r == next_index(n),
{
    if n == u32::MAX {
        0
    } else {
        n + 1
    }
}

fn render_where(conditions: &Vec<Condition>, n: &mut u32) -> (r: String)
    ensures
        r@ == where_sql(conditions_view(*conditions), *old(n)).0,
        *final(n) == where_sql(conditions_view(*conditions), *old(n)).1,
{
    let ghost cs = conditions_view(*conditions);
    if conditions.len() == 0 {
        return String::new();
    }
    let ghost n0 = *n;
    let mut body = String::new();
    let mut i: usize = 0;
    while i < conditions.len()
        invariant
            i <= conditions.len(),
            cs == conditions_view(*conditions),
            (body@, *n) == conditions_sql(cs.take(i as int), n0),
        decreases conditions.len() - i,
    {
        proof {
            assert(cs.take(i + 1).drop_last() =~= cs.take(i as int));
            assert(cs.take(i + 1).last() == conditions@[i as int]@);
        }
        if i > 0 {
            append(&mut body, " AND ");
        }
        let part = render_condition(&conditions[i], *n);
        append(&mut body, part.as_str());
        if provenance_field(&conditions[i].field) {
            *n = bump(bump(*n));
        } else {
            *n = bump(*n);
        }
        i = i + 1;
    }
    assert(cs.take(conditions.len() as int) =~= cs);
    concat("AND ", body.as_str())
}

// ---------------------------------------------------------------------------
// SQL for each graph primitive
// ---------------------------------------------------------------------------

pub const PATH_HEAD: &'static str = "WITH RECURSIVE search_path(node, depth) AS (\n  SELECT $1::text, 0\n  UNION\n  SELECT edges.to::text, search_path.depth + 1\n  FROM edges INNER JOIN search_path ON edges.from = search_path.node\n  ";
pub const PATH_MID: &'static str = "\n)\nSELECT node FROM search_path WHERE node = $2::text ";
pub const PATH_TAIL: &'static str = "LIMIT 1";
pub const DEPTH_CAP: &'static str = "WHERE depth < ";

pub const NEIGHBORS_ONE_HOP: &'static str = "SELECT DISTINCT CASE WHEN edges.from = $1::text THEN edges.to ELSE edges.from END AS node FROM edges WHERE ";
pub const NEIGHBORS_HEAD: &'static str = "WITH RECURSIVE neighborhood(node, depth) AS (\n  SELECT $1::text, 0\n  UNION\n  SELECT CASE WHEN edges.from = neighborhood.node THEN edges.to ELSE edges.from END, neighborhood.depth + 1\n  FROM edges INNER JOIN neighborhood ON ";
pub const NEIGHBORS_DEPTH: &'static str = " AND neighborhood.depth < ";
pub const NEIGHBORS_TAIL: &'static str = "\n  )\n  SELECT DISTINCT node FROM neighborhood WHERE node <> $1::text ";

pub const SUBGRAPH_HEAD: &'static str = "WITH RECURSIVE sub(node, depth) AS (\n  SELECT $1::text, 0\n  UNION\n  SELECT CASE WHEN edges.from = sub.node THEN edges.to ELSE edges.from END, sub.depth + 1\n  FROM edges INNER JOIN sub ON ";
pub const SUBGRAPH_DEPTH: &'static str = " AND sub.depth < ";
pub const SUBGRAPH_TAIL: &'static str = "\n  )\n  SELECT DISTINCT node FROM sub ";

pub const SCC_HEAD: &'static str = "SELECT scc_id, array_agg(node ORDER BY node) AS members\n  FROM find_scc() ";
pub const SCC_TAIL: &'static str = "\n  GROUP BY scc_id ORDER BY scc_id";
pub const COMPONENTS_HEAD: &'static str = "SELECT component_id, array_agg(node ORDER BY node) AS members\n  FROM find_connected_components() ";
pub const COMPONENTS_TAIL: &'static str = "\n  GROUP BY component_id ORDER BY component_id";

pub const EXPLAIN_BODY: &'static str = "WITH RECURSIVE explain_path(node, depth) AS (\n  SELECT $1::text, 0\n  UNION ALL\n  SELECT edges.to, explain_path.depth + 1\n  FROM edges INNER JOIN explain_path ON edges.from = explain_path.node\n  WHERE explain_path.depth < 32\n  )\n  SELECT EXISTS (\n  SELECT 1 FROM explain_path WHERE node = $2::text\n  ) AS found";

pub const ALL_NODES_EXCEPT: &'static str = "(SELECT node FROM all_nodes) EXCEPT (";

pub const FIND_NOT_COMPILED: &'static str = "FIND executes through MoldQLExecutor, not through compile()";
pub const EXPLORE_NOT_COMPILED: &'static str = "EXPLORE executes through MoldQLExecutor, not through compile()";
pub const PATTERN_NOT_COMPILED: &'static str = "Pattern queries use compile_to_plan(); use MoldQLExecutor directly";
pub const AND_WITHOUT_SQL: &'static str = "AND has no Postgres operands";
pub const OR_WITHOUT_SQL: &'static str = "OR has no Postgres operands";
pub const NOT_WITHOUT_OPERAND: &'static str = "NOT has no operand";
pub const NOT_WITHOUT_SQL: &'static str = "NOT only supports Postgres operands";
pub const UNSUPPORTED_PG_FIELD: &'static str = "WHERE on Postgres only tests provenance.<source> and confidence";

/// A primitive's SQL, or the refusal of a condition that SQL cannot test.
pub open spec fn pg_checked(cs: Seq<ConditionV>, sql: (Seq<char>, u32), n: u32) -> (Result<
    CompiledV,
    CompileErrorV,
>, u32) {
    if pg_fields_ok(cs) {
        (Ok(CompiledV::Postgres(sql.0)), sql.1)
    } else {
        (Err(CompileErrorV::InvalidQuery(UNSUPPORTED_PG_FIELD@)), n)
    }
}

/// PATH: a recursive walk from `$1`, capped at `MAX HOPS` when given,
/// that stops at `$2`.
pub open spec fn path_sql(p: PathV, n: u32) -> (Seq<char>, u32) {
    let cap = match p.max_hops {
        Some(h) => DEPTH_CAP@ + decimal(h as nat),
        None => Seq::empty(),
    };
    let w = where_sql(p.conditions, n);
    (PATH_HEAD@ + cap + PATH_MID@ + w.0 + PATH_TAIL@, w.1)
}

/// The edge test of a one-hop NEIGHBORS query.
pub open spec fn one_hop_predicate(d: TraversalDirection) -> Seq<char> {
    match d {
        TraversalDirection::Incoming => "edges.to = $1::text"@,
        TraversalDirection::Outgoing => "edges.from = $1::text"@,
        TraversalDirection::Both => "(edges.from = $1::text OR edges.to = $1::text)"@,
    }
}

/// The edge test of a deeper NEIGHBORS walk.
pub open spec fn neighborhood_predicate(d: TraversalDirection) -> Seq<char> {
    match d {
        TraversalDirection::Incoming => "edges.to = neighborhood.node"@,
        TraversalDirection::Outgoing => "edges.from = neighborhood.node"@,
        TraversalDirection::Both => "(edges.from = neighborhood.node OR edges.to = neighborhood.node)"@,
    }
}

/// The edge test of a SUBGRAPH walk.
pub open spec fn subgraph_predicate(d: TraversalDirection) -> Seq<char> {
    match d {
        TraversalDirection::Incoming => "edges.to = sub.node"@,
        TraversalDirection::Outgoing => "edges.from = sub.node"@,
        TraversalDirection::Both => "(edges.from = sub.node OR edges.to = sub.node)"@,
    }
}

/// NEIGHBORS: a single join for depth 0 or 1, a recursive walk beyond.
pub open spec fn neighbors_sql(r: RootedV, n: u32) -> (Seq<char>, u32) {
    let w = where_sql(r.conditions, n);
    if r.depth <= 1 {
        (NEIGHBORS_ONE_HOP@ + one_hop_predicate(r.direction) + " "@ + w.0, w.1)
    } else {
        (NEIGHBORS_HEAD@ + neighborhood_predicate(r.direction) + NEIGHBORS_DEPTH@ + decimal(
            r.depth as nat,
        ) + NEIGHBORS_TAIL@ + w.0, w.1)
    }
}

/// SUBGRAPH: a recursive walk to the given depth.
pub open spec fn subgraph_sql(r: RootedV, n: u32) -> (Seq<char>, u32) {
    let w = where_sql(r.conditions, n);
    (SUBGRAPH_HEAD@ + subgraph_predicate(r.direction) + SUBGRAPH_DEPTH@ + decimal(r.depth as nat)
        + SUBGRAPH_TAIL@ + w.0, w.1)
}

/// CLUSTER: the database's component helpers, grouped by component.
pub open spec fn cluster_sql(c: ClusterV, n: u32) -> (Seq<char>, u32) {
    let w = where_sql(c.conditions, n);
    match c.method {
        ClusterMethod::Scc => (SCC_HEAD@ + w.0 + SCC_TAIL@, w.1),
        ClusterMethod::Connected => (COMPONENTS_HEAD@ + w.0 + COMPONENTS_TAIL@, w.1),
    }
}

/// EXPLAIN: whether `$2` is reachable from `$1` within 32 steps; the
/// conditions ride along as a trailing comment.
pub open spec fn explain_sql(e: ExplainV, n: u32) -> (Seq<char>, u32) {
    let w = where_sql(e.conditions, n);
    (EXPLAIN_BODY@ + if w.0.len() == 0 {
        Seq::empty()
    } else {
        " /* "@ + w.0 + " */"@
    }, w.1)
}

// ---------------------------------------------------------------------------
// The compiler as a function of the query
// ---------------------------------------------------------------------------

/// The SQL texts among compiled operands, in order.
pub open spec fn postgres_texts(subs: Seq<CompiledV>) -> Seq<Seq<char>>
    decreases subs.len(),
{
    if subs.len() == 0 {
        Seq::empty()
    } else {
        let prefix = postgres_texts(subs.drop_last());
        match subs.last() {
            CompiledV::Postgres(s) => prefix.push(s),
            _ => prefix,
        }
    }
}

/// Each text in parentheses, joined with `sep`.
pub open spec fn parenthesised(ss: Seq<Seq<char>>, sep: Seq<char>) -> Seq<char>
    decreases ss.len(),
{
    if ss.len() == 0 {
        Seq::empty()
    } else if ss.len() == 1 {
        "("@ + ss[0] + ")"@
    } else {
        parenthesised(ss.drop_last(), sep) + sep + "("@ + ss.last() + ")"@
    }
}

/// Set algebra in SQL: AND intersects, OR unites, NOT takes the first
/// operand's complement against all nodes.
pub open spec fn postgres_boolean(op: BooleanOp, subs: Seq<CompiledV>) -> Result<
    CompiledV,
    CompileErrorV,
> {
    let texts = postgres_texts(subs);
    match op {
        BooleanOp::And => if texts.len() == 0 {
            Err(CompileErrorV::InvalidQuery(AND_WITHOUT_SQL@))
        } else {
            Ok(CompiledV::Postgres(parenthesised(texts, " INTERSECT "@)))
        },
        BooleanOp::Or => if texts.len() == 0 {
            Err(CompileErrorV::InvalidQuery(OR_WITHOUT_SQL@))
        } else {
            Ok(CompiledV::Postgres(parenthesised(texts, " UNION "@)))
        },
        BooleanOp::Not => if subs.len() == 0 {
            Err(CompileErrorV::InvalidQuery(NOT_WITHOUT_OPERAND@))
        } else {
            match subs[0] {
                CompiledV::Postgres(s) => Ok(CompiledV::Postgres(ALL_NODES_EXCEPT@ + s + ")"@)),
                _ => Err(CompileErrorV::InvalidQuery(NOT_WITHOUT_SQL@)),
            }
        },
    }
}

/// The first `k` operands compiled in order, the placeholder counter
/// running on from one to the next; the first failure stops it.
pub open spec fn operands_spec(ops: Seq<QueryV>, k: int, t: CompileTarget, n: u32) -> (Result<
    Seq<CompiledV>,
    CompileErrorV,
>, u32)
    decreases ops, k,
{
    if k <= 0 || k > ops.len() {
        (Ok(Seq::empty()), n)
    } else {
        match operands_spec(ops, k - 1, t, n) {
            (Ok(subs), m) => match compile_spec(ops[k - 1], t, m) {
                (Ok(c), m2) => (Ok(subs.push(c)), m2),
                (Err(e), m2) => (Err(e), m2),
            },
            (Err(e), m) => (Err(e), m),
        }
    }
}

/// What `compile` gives for a query on a target, with `$n` the first free
/// placeholder; also gives the next free one.
pub open spec fn compile_spec(q: QueryV, t: CompileTarget, n: u32) -> (Result<
    CompiledV,
    CompileErrorV,
>, u32)
    decreases q, 0int,
{
    match q {
        QueryV::Path(p) => match t {
            CompileTarget::Postgres => pg_checked(p.conditions, path_sql(p, n), n),
            CompileTarget::Petgraph => (Ok(CompiledV::Petgraph(PlanV::Bfs {
                roots: seq![p.from],
                targets: seq![p.to],
                max_hops: p.max_hops,
                direction: TraversalDirection::Both,
            })), n),
        },
        QueryV::Neighbors(r) => match t {
            CompileTarget::Postgres => pg_checked(r.conditions, neighbors_sql(r, n), n),
            CompileTarget::Petgraph => (Ok(CompiledV::Petgraph(match r.direction {
                TraversalDirection::Incoming => PlanV::BackwardRadius {
                    root: r.root,
                    depth: r.depth,
                    direction: r.direction,
                },
                TraversalDirection::Outgoing => PlanV::ForwardRadius {
                    root: r.root,
                    depth: r.depth,
                    direction: r.direction,
                },
                TraversalDirection::Both => PlanV::DualRadius { root: r.root, depth: r.depth },
            })), n),
        },
        QueryV::Subgraph(r) => match t {
            CompileTarget::Postgres => pg_checked(r.conditions, subgraph_sql(r, n), n),
            CompileTarget::Petgraph => (Ok(CompiledV::Petgraph(PlanV::DualRadius { root: r.root, depth: r.depth })), n),
        },
        QueryV::Cluster(c) => match t {
            CompileTarget::Postgres => pg_checked(c.conditions, cluster_sql(c, n), n),
            CompileTarget::Petgraph => (Ok(CompiledV::Petgraph(PlanV::DetectCycles(c.method))), n),
        },
        QueryV::Explain(e) => match t {
            CompileTarget::Postgres => pg_checked(e.conditions, explain_sql(e, n), n),
            CompileTarget::Petgraph => (Ok(CompiledV::Petgraph(PlanV::ExplainPath { from: e.from, to: e.to })), n),
        },
        QueryV::Boolean(op, ops) => match operands_spec(ops, ops.len() as int, t, n) {
            (Ok(subs), m) => (match t {
                CompileTarget::Postgres => postgres_boolean(op, subs),
                CompileTarget::Petgraph => Ok(CompiledV::Composed(subs, op)),
            }, m),
            (Err(e), m) => (Err(e), m),
        },
        QueryV::Find(_) => (Err(CompileErrorV::UnsupportedVariant(FIND_NOT_COMPILED@)), n),
        QueryV::Explore(_) => (Err(CompileErrorV::UnsupportedVariant(EXPLORE_NOT_COMPILED@)), n),
        QueryV::Pattern(_) => (Err(CompileErrorV::UnsupportedVariant(PATTERN_NOT_COMPILED@)), n),
    }
}

/// The view of a compile result.
pub open spec fn compile_result_view(r: Result<CompiledQuery, CompileError>) -> Result<
    CompiledV,
    CompileErrorV,
> {
    match r {
        Ok(c) => Ok(c@),
        Err(e) => Err(e@),
    }
}

// ---------------------------------------------------------------------------
// Emitting SQL
// ---------------------------------------------------------------------------

fn emit_path_pg(pq: &PathQuery, n: &mut u32) -> (r: String)
    ensures
        (r@, *final(n)) == path_sql(pq@, *old(n)),
{
    let mut r = owned(PATH_HEAD);
    match pq.max_hops {
        Some(h) => {
            append(&mut r, DEPTH_CAP);
            let d = index_text(h);
            append(&mut r, d.as_str());
        },
        None => {},
    }
    append(&mut r, PATH_MID);
    let w = render_where(&pq.conditions, n);
    append(&mut r, w.as_str());
    append(&mut r, PATH_TAIL);
    r
}

fn neighbors_predicate(d: TraversalDirection, one_hop: bool) -> (r: &'static str)
    ensures
        r@ == if one_hop {
            one_hop_predicate(d)
        } else {
            neighborhood_predicate(d)
        },
{
    match (d, one_hop) {
        (TraversalDirection::Incoming, true) => "edges.to = $1::text",
        (TraversalDirection::Outgoing, true) => "edges.from = $1::text",
        (TraversalDirection::Both, true) => "(edges.from = $1::text OR edges.to = $1::text)",
        (TraversalDirection::Incoming, false) => "edges.to = neighborhood.node",
        (TraversalDirection::Outgoing, false) => "edges.from = neighborhood.node",
        (TraversalDirection::Both, false) => "(edges.from = neighborhood.node OR edges.to = neighborhood.node)",
    }
}

fn emit_neighbors_pg(nq: &NeighborsQuery, n: &mut u32) -> (r: String)
    ensures
        (r@, *final(n)) == neighbors_sql(nq@, *old(n)),
{
    let w = render_where(&nq.conditions, n);
    if nq.depth <= 1 {
        let mut r = owned(NEIGHBORS_ONE_HOP);
        append(&mut r, neighbors_predicate(nq.direction, true));
        append(&mut r, " ");
        append(&mut r, w.as_str());
        r
    } else {
        let mut r = owned(NEIGHBORS_HEAD);
        append(&mut r, neighbors_predicate(nq.direction, false));
        append(&mut r, NEIGHBORS_DEPTH);
        let d = index_text(nq.depth);
        append(&mut r, d.as_str());
        append(&mut r, NEIGHBORS_TAIL);
        append(&mut r, w.as_str());
        r
    }
}

fn sub_predicate(d: TraversalDirection) -> (r: &'static str)
    ensures
        r@ == subgraph_predicate(d),
{
    match d {
        TraversalDirection::Incoming => "edges.to = sub.node",
        TraversalDirection::Outgoing => "edges.from = sub.node",
        TraversalDirection::Both => "(edges.from = sub.node OR edges.to = sub.node)",
    }
}

fn emit_subgraph_pg(sq: &SubgraphQuery, n: &mut u32) -> (r: String)
    ensures
        (r@, *final(n)) == subgraph_sql(sq@, *old(n)),
{
    let w = render_where(&sq.conditions, n);
    let mut r = owned(SUBGRAPH_HEAD);
    append(&mut r, sub_predicate(sq.direction));
    append(&mut r, SUBGRAPH_DEPTH);
    let d = index_text(sq.depth);
    append(&mut r, d.as_str());
    append(&mut r, SUBGRAPH_TAIL);
    append(&mut r, w.as_str());
    r
}

fn emit_cluster_pg(cq: &ClusterQuery, n: &mut u32) -> (r: String)
    ensures
        (r@, *final(n)) == cluster_sql(cq@, *old(n)),
{
    let w = render_where(&cq.conditions, n);
    let (head, tail) = match cq.method {
        ClusterMethod::Scc => (SCC_HEAD, SCC_TAIL),
        ClusterMethod::Connected => (COMPONENTS_HEAD, COMPONENTS_TAIL),
    };
    let mut r = owned(head);
    append(&mut r, w.as_str());
    append(&mut r, tail);
    r
}

fn emit_explain_pg(eq: &ExplainQuery, n: &mut u32) -> (r: String)
    ensures
        (r@, *final(n)) == explain_sql(eq@, *old(n)),
{
    let w = render_where(&eq.conditions, n);
    let mut r = owned(EXPLAIN_BODY);
    if w.as_str().unicode_len() > 0 {
        append(&mut r, " /* ");
        append(&mut r, w.as_str());
        append(&mut r, " */");
    }
    r
}

// ---------------------------------------------------------------------------
// Compiling
// ---------------------------------------------------------------------------

/// Once an operand fails, the failure stands whatever follows.
proof fn lemma_operands_failure_stays(
    ops: Seq<QueryV>,
    k: int,
    j: int,
    t: CompileTarget,
    n: u32,
)
    requires
        0 < k <= j <= ops.len(),
        operands_spec(ops, k, t, n).0 is Err,
    ensures
        operands_spec(ops, j, t, n) == operands_spec(ops, k, t, n),
    decreases j - k,
{
    if j > k {
        lemma_operands_failure_stays(ops, k, j - 1, t, n);
    }
}

fn sql_texts(subs: &Vec<CompiledQuery>) -> (r: Vec<String>)
    ensures
        strings_view(r) == postgres_texts(subs@.map_values(|c: CompiledQuery| c@)),
{
    let ghost vs = subs@.map_values(|c: CompiledQuery| c@);
    let mut r: Vec<String> = Vec::new();
    let mut i: usize = 0;
    while i < subs.len()
        invariant
            i <= subs.len(),
            vs == subs@.map_values(|c: CompiledQuery| c@),
            strings_view(r) == postgres_texts(vs.take(i as int)),
        decreases subs.len() - i,
    {
        proof {
            assert(vs.take(i + 1).drop_last() =~= vs.take(i as int));
            assert(vs.take(i + 1).last() == subs@[i as int]@);
        }
        match &subs[i] {
            CompiledQuery::Postgres(s) => {
                let ghost before = strings_view(r);
                r.push(owned(s.as_str()));
                proof {
                    assert(strings_view(r) =~= before.push(s@));
                }
            },
            _ => {},
        }
        i = i + 1;
    }
    assert(vs.take(subs.len() as int) =~= vs);
    r
}

fn join_parenthesised(texts: &Vec<String>, sep: &str) -> (r: String)
    ensures
        r@ == parenthesised(strings_view(*texts), sep@),
{
    let ghost ss = strings_view(*texts);
    let mut r = String::new();
    let mut i: usize = 0;
    while i < texts.len()
        invariant
            i <= texts.len(),
            ss == strings_view(*texts),
            r@ == parenthesised(ss.take(i as int), sep@),
        decreases texts.len() - i,
    {
        proof {
            assert(ss.take(i + 1).drop_last() =~= ss.take(i as int));
            assert(ss.take(i + 1).last() == texts@[i as int]@);
            if i == 0 {
                assert(ss.take(1)[0] == ss[0]);
            }
        }
        if i > 0 {
            append(&mut r, sep);
        }
        append(&mut r, "(");
        append(&mut r, texts[i].as_str());
        append(&mut r, ")");
        i = i + 1;
    }
    assert(ss.take(texts.len() as int) =~= ss);
    r
}

fn invalid(message: &str) -> (r: CompileError)
    ensures
        r@ == CompileErrorV::InvalidQuery(message@),
{
    CompileError::InvalidQuery(owned(message))
}

fn compile_postgres_boolean(op: BooleanOp, subs: &Vec<CompiledQuery>) -> (r: Result<
    CompiledQuery,
    CompileError,
>)
    ensures
        compile_result_view(r) == postgres_boolean(op, subs@.map_values(|c: CompiledQuery| c@)),
{
    let ghost vs = subs@.map_values(|c: CompiledQuery| c@);
    match op {
        BooleanOp::And => {
            let texts = sql_texts(subs);
            if texts.len() == 0 {
                Err(invalid(AND_WITHOUT_SQL))
            } else {
                Ok(CompiledQuery::Postgres(join_parenthesised(&texts, " INTERSECT ")))
            }
        },
        BooleanOp::Or => {
            let texts = sql_texts(subs);
            if texts.len() == 0 {
                Err(invalid(OR_WITHOUT_SQL))
            } else {
                Ok(CompiledQuery::Postgres(join_parenthesised(&texts, " UNION ")))
            }
        },
        BooleanOp::Not => {
            if subs.len() == 0 {
                Err(invalid(NOT_WITHOUT_OPERAND))
            } else {
                proof {
                    assert(vs[0] == subs@[0]@);
                }
                match &subs[0] {
                    CompiledQuery::Postgres(s) => {
                        let mut r = concat(ALL_NODES_EXCEPT, s.as_str());
                        append(&mut r, ")");
                        Ok(CompiledQuery::Postgres(r))
                    },
                    _ => Err(invalid(NOT_WITHOUT_SQL)),
                }
            }
        },
    }
}

fn one(s: &String) -> (r: Vec<String>)
    ensures
        strings_view(r) == seq![s@],
{
    let mut r: Vec<String> = Vec::new();
    r.push(owned(s.as_str()));
    assert(strings_view(r) =~= seq![s@]);
    r
}

fn compile_from(query: &MoldQLQuery, target: CompileTarget, n: &mut u32) -> (r: Result<
    CompiledQuery,
    CompileError,
>)
    ensures
        (compile_result_view(r), *final(n)) == compile_spec(query@, target, *old(n)),
    decreases query,
{
    match query {
        MoldQLQuery::Path(pq) => match target {
            CompileTarget::Postgres => {
                if pg_fields_supported(&pq.conditions) {
                    Ok(CompiledQuery::Postgres(emit_path_pg(pq, n)))
                } else {
                    Err(invalid(UNSUPPORTED_PG_FIELD))
                }
            },
            CompileTarget::Petgraph => Ok(
                CompiledQuery::Petgraph(
                    PetgraphPlan::Bfs {
                        roots: one(&pq.from),
                        targets: one(&pq.to),
                        max_hops: pq.max_hops,
                        direction: TraversalDirection::Both,
                    },
                ),
            ),
        },
        MoldQLQuery::Neighbors(nq) => match target {
            CompileTarget::Postgres => {
                if pg_fields_supported(&nq.conditions) {
                    Ok(CompiledQuery::Postgres(emit_neighbors_pg(nq, n)))
                } else {
                    Err(invalid(UNSUPPORTED_PG_FIELD))
                }
            },
            CompileTarget::Petgraph => {
                let root = owned(nq.root.as_str());
                let plan = match nq.direction {
                    TraversalDirection::Incoming => PetgraphPlan::BackwardRadius {
                        root,
                        depth: nq.depth,
                        direction: nq.direction,
                    },
                    TraversalDirection::Outgoing => PetgraphPlan::ForwardRadius {
                        root,
                        depth: nq.depth,
                        direction: nq.direction,
                    },
                    TraversalDirection::Both => PetgraphPlan::DualRadius { root, depth: nq.depth },
                };
                Ok(CompiledQuery::Petgraph(plan))
            },
        },
        MoldQLQuery::Subgraph(sq) => match target {
            CompileTarget::Postgres => {
                if pg_fields_supported(&sq.conditions) {
                    Ok(CompiledQuery::Postgres(emit_subgraph_pg(sq, n)))
                } else {
                    Err(invalid(UNSUPPORTED_PG_FIELD))
                }
            },
            CompileTarget::Petgraph => Ok(
                CompiledQuery::Petgraph(
                    PetgraphPlan::DualRadius { root: owned(sq.root.as_str()), depth: sq.depth },
                ),
            ),
        },
        MoldQLQuery::Cluster(cq) => match target {
            CompileTarget::Postgres => {
                if pg_fields_supported(&cq.conditions) {
                    Ok(CompiledQuery::Postgres(emit_cluster_pg(cq, n)))
                } else {
                    Err(invalid(UNSUPPORTED_PG_FIELD))
                }
            },
            CompileTarget::Petgraph => Ok(CompiledQuery::Petgraph(PetgraphPlan::DetectCycles(cq.method))),
        },
        MoldQLQuery::Explain(eq) => match target {
            CompileTarget::Postgres => {
                if pg_fields_supported(&eq.conditions) {
                    Ok(CompiledQuery::Postgres(emit_explain_pg(eq, n)))
                } else {
                    Err(invalid(UNSUPPORTED_PG_FIELD))
                }
            },
            CompileTarget::Petgraph => Ok(
                CompiledQuery::Petgraph(
                    PetgraphPlan::ExplainPath {
                        from: owned(eq.from.as_str()),
                        to: owned(eq.to.as_str()),
                    },
                ),
            ),
        },
        MoldQLQuery::Boolean(bq) => {
            let ghost ops = match query@ {
                QueryV::Boolean(_, ops) => ops,
                _ => Seq::empty(),
            };
            let ghost n0 = *n;
            let mut subs: Vec<CompiledQuery> = Vec::new();
            let mut i: usize = 0;
            assert(subs@.map_values(|c: CompiledQuery| c@) =~= Seq::<CompiledV>::empty());
            while i < bq.operands.len()
                invariant
                    i <= bq.operands.len(),
                    subs.len() == i,
                    ops.len() == bq.operands.len(),
                    forall|j: int| 0 <= j < ops.len() ==> ops[j] == #[trigger] bq.operands@[j]@,
                    query@ == QueryV::Boolean(bq.op, ops),
                    *query == MoldQLQuery::Boolean(*bq),
                    n0 == *old(n),
                    operands_spec(ops, i as int, target, n0) == (
                        Ok::<Seq<CompiledV>, CompileErrorV>(subs@.map_values(|c: CompiledQuery| c@)),
                        *n,
                    ),
                decreases bq.operands.len() - i,
            {
                proof {
                    assert(decreases_to!(bq.operands => bq.operands@));
                }
                let ghost before = subs@.map_values(|c: CompiledQuery| c@);
                let c = compile_from(&bq.operands[i], target, n);
                match c {
                    Ok(c) => {
                        subs.push(c);
                        proof {
                            assert(subs@.map_values(|c: CompiledQuery| c@) =~= before.push(
                                subs@[i as int]@,
                            ));
                        }
                    },
                    Err(e) => {
                        proof {
                            assert(ops[i as int] == bq.operands@[i as int]@);
                            assert(operands_spec(ops, i + 1, target, n0).0 is Err);
                            lemma_operands_failure_stays(
                                ops,
                                i + 1,
                                ops.len() as int,
                                target,
                                n0,
                            );
                        }
                        return Err(e);
                    },
                }
                i = i + 1;
            }
            match target {
                CompileTarget::Postgres => compile_postgres_boolean(bq.op, &subs),
                CompileTarget::Petgraph => {
                    proof {
                        lemma_composed_view(subs, bq.op);
                    }
                    Ok(CompiledQuery::Composed(subs, bq.op))
                },
            }
        },
        MoldQLQuery::Find(f) => {
            assert(query@ == QueryV::Find(f@));
            Err(CompileError::UnsupportedVariant(FIND_NOT_COMPILED))
        },
        MoldQLQuery::Explore(e) => {
            assert(query@ == QueryV::Explore(e@));
            Err(CompileError::UnsupportedVariant(EXPLORE_NOT_COMPILED))
        },
        MoldQLQuery::Pattern(p) => {
            assert(query@ == QueryV::Pattern(p@));
            Err(CompileError::UnsupportedVariant(PATTERN_NOT_COMPILED))
        },
    }
}

/// Compiles a query for a target. Graph primitives and their boolean
/// compositions compile; FIND, EXPLORE and Pattern queries run elsewhere
/// and are refused. In SQL the object references bind to `$1` / `$2` and
/// the `WHERE` values to `$3` onwards, numbered across the whole query.
pub fn compile(query: &MoldQLQuery, target: CompileTarget) -> (r: Result<CompiledQuery, CompileError>)
    ensures
        compile_result_view(r) == compile_spec(query@, target, FIRST_CONDITION_INDEX).0,
{
    let mut n: u32 = FIRST_CONDITION_INDEX;
    compile_from(query, target, &mut n)
}

// ---------------------------------------------------------------------------
// Laws
// ---------------------------------------------------------------------------

/// Two fields of the same kind for SQL: both provenance keys (whatever
/// source they name), both confidence tests, or both fields SQL has not.
pub open spec fn same_field_kind(f: Seq<Seq<char>>, g: Seq<Seq<char>>) -> bool {
    is_provenance_field(f) == is_provenance_field(g) && is_confidence_field(f)
        == is_confidence_field(g)
}

/// Two condition lists that test fields of the same kinds with the same
/// operators, whatever field names, provenance sources and values they
/// hold.
pub open spec fn same_tests(a: Seq<ConditionV>, b: Seq<ConditionV>) -> bool {
    &&& a.len() == b.len()
    &&& forall|i: int|
        #![trigger a[i]]
        0 <= i < a.len() ==> same_field_kind(a[i].field, b[i].field) && a[i].op == b[i].op
}

/// Two queries that differ at most in user text: the object references,
/// the compared values, the provenance sources and the field names
/// (within one kind of field). Boolean compositions
/// match operand by operand; queries that do not compile match their own
/// kind.
pub open spec fn same_but_bound_values(a: QueryV, b: QueryV) -> bool
    decreases a, 0int,
{
    match (a, b) {
        (QueryV::Path(x), QueryV::Path(y)) => x.max_hops == y.max_hops && same_tests(
            x.conditions,
            y.conditions,
        ),
        (QueryV::Neighbors(x), QueryV::Neighbors(y)) => x.depth == y.depth && x.direction
            == y.direction && same_tests(x.conditions, y.conditions),
        (QueryV::Subgraph(x), QueryV::Subgraph(y)) => x.depth == y.depth && x.direction
            == y.direction && same_tests(x.conditions, y.conditions),
        (QueryV::Cluster(x), QueryV::Cluster(y)) => x.method == y.method && same_tests(
            x.conditions,
            y.conditions,
        ),
        (QueryV::Explain(x), QueryV::Explain(y)) => same_tests(x.conditions, y.conditions),
        (QueryV::Boolean(oa, xa), QueryV::Boolean(ob, xb)) => oa == ob && xa.len() == xb.len()
            && same_operands(xa, xb, xa.len() as int),
        (QueryV::Find(_), QueryV::Find(_)) => true,
        (QueryV::Explore(_), QueryV::Explore(_)) => true,
        (QueryV::Pattern(_), QueryV::Pattern(_)) => true,
        _ => false,
    }
}

/// The first `k` operands match pairwise in the sense of
/// [`same_but_bound_values`].
pub open spec fn same_operands(xa: Seq<QueryV>, xb: Seq<QueryV>, k: int) -> bool
    decreases xa, k,
{
    if k <= 0 || k > xa.len() || k > xb.len() {
        k <= 0
    } else {
        same_operands(xa, xb, k - 1) && same_but_bound_values(xa[k - 1], xb[k - 1])
    }
}

proof fn lemma_conditions_sql_ignores_values(a: Seq<ConditionV>, b: Seq<ConditionV>, n: u32)
    requires
        same_tests(a, b),
    ensures
        conditions_sql(a, n) == conditions_sql(b, n),
        pg_fields_ok(a) == pg_fields_ok(b),
    decreases a.len(),
{
    assert(pg_fields_ok(a) == pg_fields_ok(b)) by {
        if pg_fields_ok(a) {
            assert forall|i: int| 0 <= i < b.len() implies pg_field_ok(#[trigger] b[i].field) by {
                assert(pg_field_ok(a[i].field));
            }
        }
        if pg_fields_ok(b) {
            assert forall|i: int| 0 <= i < a.len() implies pg_field_ok(#[trigger] a[i].field) by {
                assert(pg_field_ok(b[i].field));
            }
        }
    }
    if a.len() > 0 {
        assert(same_field_kind(a[a.len() - 1].field, b[a.len() - 1].field));
        assert(same_tests(a.drop_last(), b.drop_last())) by {
            assert forall|i: int| 0 <= i < a.drop_last().len() implies same_field_kind(
                a.drop_last()[i].field,
                b.drop_last()[i].field,
            ) && a.drop_last()[i].op == b.drop_last()[i].op by {
                assert(a.drop_last()[i] == a[i]);
                assert(b.drop_last()[i] == b[i]);
                assert(same_field_kind(a[i].field, b[i].field));
            }
        }
        lemma_conditions_sql_ignores_values(a.drop_last(), b.drop_last(), n);
    }
}

/// No user text reaches the SQL text: two queries that differ only in
/// their object references, compared values, provenance sources and
/// field names (each field keeping its kind) compile to the same
/// statement, with the same placeholders, or fail alike.
pub proof fn law_sql_binds_user_values(a: QueryV, b: QueryV, n: u32)
    requires
        same_but_bound_values(a, b),
    ensures
        compile_spec(a, CompileTarget::Postgres, n) == compile_spec(b, CompileTarget::Postgres, n),
    decreases a, 0int,
{
    match (a, b) {
        (QueryV::Path(x), QueryV::Path(y)) => {
            lemma_conditions_sql_ignores_values(x.conditions, y.conditions, n);
        },
        (QueryV::Neighbors(x), QueryV::Neighbors(y)) => {
            lemma_conditions_sql_ignores_values(x.conditions, y.conditions, n);
        },
        (QueryV::Subgraph(x), QueryV::Subgraph(y)) => {
            lemma_conditions_sql_ignores_values(x.conditions, y.conditions, n);
        },
        (QueryV::Cluster(x), QueryV::Cluster(y)) => {
            lemma_conditions_sql_ignores_values(x.conditions, y.conditions, n);
        },
        (QueryV::Explain(x), QueryV::Explain(y)) => {
            lemma_conditions_sql_ignores_values(x.conditions, y.conditions, n);
        },
        (QueryV::Boolean(oa, xa), QueryV::Boolean(ob, xb)) => {
            lemma_operands_bind_user_values(xa, xb, xa.len() as int, n);
        },
        _ => {},
    }
}

proof fn lemma_operands_bind_user_values(xa: Seq<QueryV>, xb: Seq<QueryV>, k: int, n: u32)
    requires
        xa.len() == xb.len(),
        0 <= k <= xa.len(),
        same_operands(xa, xb, k),
    ensures
        operands_spec(xa, k, CompileTarget::Postgres, n) == operands_spec(
            xb,
            k,
            CompileTarget::Postgres,
            n,
        ),
    decreases xa, k,
{
    if k > 0 {
        lemma_operands_bind_user_values(xa, xb, k - 1, n);
        match operands_spec(xa, k - 1, CompileTarget::Postgres, n) {
            (Ok(_), m) => {
                law_sql_binds_user_values(xa[k - 1], xb[k - 1], m);
            },
            _ => {},
        }
    }
}


/// `column = node`: one end of an edge matched against a node.
pub open spec fn edge_end_is(column: Seq<char>, node: Seq<char>) -> Seq<char> {
    column + " = "@ + node
}

/// Either end of an edge matched against a node.
pub open spec fn either_edge_end_is(node: Seq<char>) -> Seq<char> {
    "("@ + edge_end_is("edges.from"@, node) + " OR "@ + edge_end_is("edges.to"@, node) + ")"@
}

/// The Postgres edge tests of a direction are `test` applied to the node the
/// walk has reached: `sub.node` for SUBGRAPH, `neighborhood.node` for a deep
/// NEIGHBORS walk, the root placeholder `$1` for a one-hop NEIGHBORS join.
pub open spec fn edge_tests_are(d: TraversalDirection, test: spec_fn(Seq<char>) -> Seq<char>) -> bool {
    &&& subgraph_predicate(d) == test("sub.node"@)
    &&& neighborhood_predicate(d) == test("neighborhood.node"@)
    &&& one_hop_predicate(d) == test("$1::text"@)
}

/// A direction walks the same edges whichever form it compiles to. Where the
/// petgraph plan of a NEIGHBORS query walks forward (outgoing edges), every
/// Postgres edge test for that direction, SUBGRAPH and NEIGHBORS alike,
/// matches the edge's source `edges.from` against the node reached; where
/// the plan walks backward (incoming edges), the edge's target `edges.to`;
/// where it walks both ways, either end.
pub proof fn law_walks_agree_across_targets(r: RootedV, n: u32)
    ensures
        match compile_spec(QueryV::Neighbors(r), CompileTarget::Petgraph, n).0 {
            Ok(CompiledV::Petgraph(PlanV::ForwardRadius { .. })) => edge_tests_are(
                r.direction,
                |node: Seq<char>| edge_end_is("edges.from"@, node),
            ),
            Ok(CompiledV::Petgraph(PlanV::BackwardRadius { .. })) => edge_tests_are(
                r.direction,
                |node: Seq<char>| edge_end_is("edges.to"@, node),
            ),
            Ok(CompiledV::Petgraph(PlanV::DualRadius { .. })) => edge_tests_are(
                r.direction,
                |node: Seq<char>| either_edge_end_is(node),
            ),
            _ => false,
        },
{
    reveal_strlit("edges.from");
    reveal_strlit("edges.to");
    reveal_strlit(" = ");
    reveal_strlit("(");
    reveal_strlit(" OR ");
    reveal_strlit(")");
    reveal_strlit("sub.node");
    reveal_strlit("neighborhood.node");
    reveal_strlit("$1::text");
    reveal_strlit("edges.to = sub.node");
    reveal_strlit("edges.from = sub.node");
    reveal_strlit("(edges.from = sub.node OR edges.to = sub.node)");
    reveal_strlit("edges.to = neighborhood.node");
    reveal_strlit("edges.from = neighborhood.node");
    reveal_strlit("(edges.from = neighborhood.node OR edges.to = neighborhood.node)");
    reveal_strlit("edges.to = $1::text");
    reveal_strlit("edges.from = $1::text");
    reveal_strlit("(edges.from = $1::text OR edges.to = $1::text)");
    match r.direction {
        TraversalDirection::Outgoing => {
            assert(subgraph_predicate(r.direction) =~= edge_end_is("edges.from"@, "sub.node"@));
            assert(neighborhood_predicate(r.direction) =~= edge_end_is(
                "edges.from"@,
                "neighborhood.node"@,
            ));
            assert(one_hop_predicate(r.direction) =~= edge_end_is("edges.from"@, "$1::text"@));
        },
        TraversalDirection::Incoming => {
            assert(subgraph_predicate(r.direction) =~= edge_end_is("edges.to"@, "sub.node"@));
            assert(neighborhood_predicate(r.direction) =~= edge_end_is(
                "edges.to"@,
                "neighborhood.node"@,
            ));
            assert(one_hop_predicate(r.direction) =~= edge_end_is("edges.to"@, "$1::text"@));
        },
        TraversalDirection::Both => {
            assert(subgraph_predicate(r.direction) =~= either_edge_end_is("sub.node"@));
            assert(neighborhood_predicate(r.direction) =~= either_edge_end_is(
                "neighborhood.node"@,
            ));
            assert(one_hop_predicate(r.direction) =~= either_edge_end_is("$1::text"@));
        },
    }
}

} // verus!
