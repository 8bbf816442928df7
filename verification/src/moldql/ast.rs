//! MoldQL AST: the data a parsed query settles into.
//!
//! MoldQL combines a target, a scope filter, AND-chained conditions and
//! a lens into one expression; EXPLORE walks the call graph. ExplorerQL
//! adds five graph-native primitives (PATH, NEIGHBORS, SUBGRAPH,
//! CLUSTER, EXPLAIN) and boolean composition; the Pattern Profile adds
//! typed, bounded `MATCH` patterns.
//!
//! Every type with text in it has a view (`@`) over `Seq<char>`, which
//! the parser contracts speak of. Numbers are kept as their canonical
//! decimal text (see [`crate::number`]).

use vstd::prelude::*;

verus! {

/// What kind of objects a `FIND` clause returns.
#[derive(Debug, Clone, Copy, PartialEq, Eq, Structural)]
pub enum TargetType {
    Symbols,
    Files,
    Scopes,
    Issues,
}

pub open spec fn target_keyword(t: TargetType) -> Seq<char> {
    match t {
        TargetType::Symbols => "symbols"@,
        TargetType::Files => "files"@,
        TargetType::Scopes => "scopes"@,
        TargetType::Issues => "issues"@,
    }
}

impl TargetType {
    /// Canonical lowercase form used in queries: `symbols`, `files`, ...
    pub fn keyword(&self) -> (r: &'static str)
        ensures
            r@ == target_keyword(*self),
    {
        match self {
            TargetType::Symbols => "symbols",
            TargetType::Files => "files",
            TargetType::Scopes => "scopes",
            TargetType::Issues => "issues",
        }
    }
}

/// A dotted field reference: `["fan_in"]`, or `["quality", "critical"]`.
#[derive(Debug, PartialEq, Eq)]
pub struct Field {
    pub parts: Vec<String>,
}

impl View for Field {
    type V = Seq<Seq<char>>;

    open spec fn view(&self) -> Seq<Seq<char>> {
        self.parts@.map_values(|p: String| p@)
    }
}

impl Clone for Field {
    fn clone(&self) -> (r: Self)
        ensures
            r@ == self@,
    {
        let r = Field { parts: self.parts.clone() };
        assert(r@ =~= self@);
        r
    }
}

impl Field {
    /// Single-part field: `fan_in` gives `["fan_in"]`.
    pub fn single(part: &str) -> (r: Self)
        ensures
            r@ == seq![part@],
    {
        let mut parts: Vec<String> = Vec::new();
        parts.push(part.to_owned());
        let r = Field { parts };
        assert(r@ =~= seq![part@]);
        r
    }

    /// Two-part dotted field: `quality.critical` gives
    /// `["quality", "critical"]`.
    pub fn dotted(a: &str, b: &str) -> (r: Self)
        ensures
            r@ == seq![a@, b@],
    {
        let mut parts: Vec<String> = Vec::new();
        parts.push(a.to_owned());
        parts.push(b.to_owned());
        let r = Field { parts };
        assert(r@ =~= seq![a@, b@]);
        r
    }

    /// The first segment, or `""` for a field without parts.
    pub fn head(&self) -> (r: &str)
        ensures
            r@ == if self@.len() > 0 {
                self@[0]
            } else {
                ""@
            },
    {
        if self.parts.len() > 0 {
            self.parts[0].as_str()
        } else {
            ""
        }
    }

    /// The second segment, if any.
    pub fn tail(&self) -> (r: Option<&str>)
        ensures
            self@.len() > 1 ==> r is Some && r->0@ == self@[1],
            self@.len() <= 1 ==> r is None,
    {
        if self.parts.len() > 1 {
            Some(self.parts[1].as_str())
        } else {
            None
        }
    }
}

/// Comparison operator of a `WHERE` condition.
#[derive(Debug, Clone, Copy, PartialEq, Eq, Structural)]
pub enum Op {
    Gt,
    Gte,
    Lt,
    Lte,
    Eq,
    Neq,
    /// Substring / contains; only meaningful for string-valued fields.
    Contains,
}

pub open spec fn op_symbol(o: Op) -> Seq<char> {
    match o {
        Op::Gt => ">"@,
        Op::Gte => ">="@,
        Op::Lt => "<"@,
        Op::Lte => "<="@,
        Op::Eq => "=="@,
        Op::Neq => "!="@,
        Op::Contains => "~"@,
    }
}

impl Op {
    /// Wire form: `>`, `>=`, `<`, `<=`, `==`, `!=`, `~`.
    pub fn symbol(&self) -> (r: &'static str)
        ensures
            r@ == op_symbol(*self),
    {
        match self {
            Op::Gt => ">",
            Op::Gte => ">=",
            Op::Lt => "<",
            Op::Lte => "<=",
            Op::Eq => "==",
            Op::Neq => "!=",
            Op::Contains => "~",
        }
    }
}

/// Right-hand side of a condition. A number is held as its canonical
/// decimal text.
#[derive(Debug, PartialEq)]
pub enum Value {
    Number(String),
    String(String),
}

pub enum ValueV {
    Number(Seq<char>),
    Str(Seq<char>),
}

impl View for Value {
    type V = ValueV;

    open spec fn view(&self) -> ValueV {
        match self {
            Value::Number(n) => ValueV::Number(n@),
            Value::String(s) => ValueV::Str(s@),
        }
    }
}

impl Clone for Value {
    fn clone(&self) -> (r: Self)
        ensures
            r@ == self@,
    {
        match self {
            Value::Number(n) => Value::Number(n.clone()),
            Value::String(t) => Value::String(t.clone()),
        }
    }
}

/// A single `WHERE` predicate.
#[derive(Debug, PartialEq)]
pub struct Condition {
    pub field: Field,
    pub op: Op,
    pub value: Value,
}

pub struct ConditionV {
    pub field: Seq<Seq<char>>,
    pub op: Op,
    pub value: ValueV,
}

impl View for Condition {
    type V = ConditionV;

    open spec fn view(&self) -> ConditionV {
        ConditionV { field: self.field@, op: self.op, value: self.value@ }
    }
}

impl Clone for Condition {
    fn clone(&self) -> (r: Self)
        ensures
            r@ == self@,
    {
        Condition { field: self.field.clone(), op: self.op, value: self.value.clone() }
    }
}

pub open spec fn conditions_view(v: Vec<Condition>) -> Seq<ConditionV> {
    v@.map_values(|c: Condition| c@)
}

/// A copy of `v`, condition by condition.
fn clone_conditions(v: &Vec<Condition>) -> (r: Vec<Condition>)
    ensures
        conditions_view(r) == conditions_view(*v),
{
    let r = v.clone();
    assert forall|i: int| 0 <= i < r.len() implies #[trigger] r@[i]@ == v@[i]@ by {
        assert(cloned::<Condition>(v[i], r[i]));
    }
    assert(conditions_view(r) =~= conditions_view(*v));
    r
}

pub open spec fn opt_view(o: Option<String>) -> Option<Seq<char>> {
    match o {
        Some(s) => Some(s@),
        None => None,
    }
}

/// The body of a `FIND` query.
#[derive(Debug, PartialEq)]
pub struct FindQuery {
    pub target: TargetType,
    /// `IN SCOPE <path>`; `None` means no scope restriction.
    pub scope: Option<String>,
    /// `WHERE` conditions, AND-chained.
    pub conditions: Vec<Condition>,
    /// `APPLY <lens>`.
    pub apply_lens: Option<String>,
}

pub struct FindV {
    pub target: TargetType,
    pub scope: Option<Seq<char>>,
    pub conditions: Seq<ConditionV>,
    pub apply_lens: Option<Seq<char>>,
}

impl View for FindQuery {
    type V = FindV;

    open spec fn view(&self) -> FindV {
        FindV {
            target: self.target,
            scope: opt_view(self.scope),
            conditions: conditions_view(self.conditions),
            apply_lens: opt_view(self.apply_lens),
        }
    }
}

impl Clone for FindQuery {
    fn clone(&self) -> (r: Self)
        ensures
            r@ == self@,
    {
        FindQuery {
            target: self.target,
            scope: self.scope.clone(),
            conditions: clone_conditions(&self.conditions),
            apply_lens: self.apply_lens.clone(),
        }
    }
}

/// Which side of the call graph `EXPLORE` walks.
#[derive(Debug, Clone, Copy, PartialEq, Eq, Structural)]
pub enum Direction {
    Callers,
    Callees,
}

impl Direction {
    /// Wire form: `callers`, `callees`.
    pub fn keyword(&self) -> (r: &'static str)
        ensures
            r@ == match *self {
                Direction::Callers => "callers"@,
                Direction::Callees => "callees"@,
            },
    {
        match self {
            Direction::Callers => "callers",
            Direction::Callees => "callees",
        }
    }
}

/// The body of an `EXPLORE` query.
#[derive(Debug, PartialEq, Eq)]
pub struct ExploreQuery {
    /// MVP id of the seed object (e.g. `symbol:src/main.rs:main:1`).
    pub object_ref: String,
    pub direction: Direction,
    /// Maximum BFS depth.
    pub depth: u32,
}

pub struct ExploreV {
    pub object_ref: Seq<char>,
    pub direction: Direction,
    pub depth: u32,
}

impl View for ExploreQuery {
    type V = ExploreV;

    open spec fn view(&self) -> ExploreV {
        ExploreV { object_ref: self.object_ref@, direction: self.direction, depth: self.depth }
    }
}

impl Clone for ExploreQuery {
    fn clone(&self) -> (r: Self)
        ensures
            r@ == self@,
    {
        ExploreQuery { object_ref: self.object_ref.clone(), direction: self.direction, depth: self.depth }
    }
}

/// Direction of an ExplorerQL traversal: `Incoming` walks callers,
/// `Outgoing` callees, `Both` both.
#[derive(Debug, Clone, Copy, PartialEq, Eq, Structural)]
pub enum TraversalDirection {
    Incoming,
    Outgoing,
    Both,
}

impl TraversalDirection {
    /// Wire form: `incoming`, `outgoing`, `both`.
    pub fn keyword(&self) -> (r: &'static str)
        ensures
            r@ == match *self {
                TraversalDirection::Incoming => "incoming"@,
                TraversalDirection::Outgoing => "outgoing"@,
                TraversalDirection::Both => "both"@,
            },
    {
        match self {
            TraversalDirection::Incoming => "incoming",
            TraversalDirection::Outgoing => "outgoing",
            TraversalDirection::Both => "both",
        }
    }
}

/// `PATH FROM <from> TO <to> [MAX HOPS <n>] [WHERE ...]`.
#[derive(Debug, PartialEq)]
pub struct PathQuery {
    pub from: String,
    pub to: String,
    /// `None` when omitted: no bound on the walk.
    pub max_hops: Option<u32>,
    pub conditions: Vec<Condition>,
}

pub struct PathV {
    pub from: Seq<char>,
    pub to: Seq<char>,
    pub max_hops: Option<u32>,
    pub conditions: Seq<ConditionV>,
}

impl View for PathQuery {
    type V = PathV;

    open spec fn view(&self) -> PathV {
        PathV {
            from: self.from@,
            to: self.to@,
            max_hops: self.max_hops,
            conditions: conditions_view(self.conditions),
        }
    }
}

impl Clone for PathQuery {
    fn clone(&self) -> (r: Self)
        ensures
            r@ == self@,
    {
        PathQuery {
            from: self.from.clone(),
            to: self.to.clone(),
            max_hops: self.max_hops,
            conditions: clone_conditions(&self.conditions),
        }
    }
}

/// `NEIGHBORS <root> DEPTH <n> [DIRECTION <d>] [WHERE ...]`.
#[derive(Debug, PartialEq)]
pub struct NeighborsQuery {
    pub root: String,
    pub depth: u32,
    pub direction: TraversalDirection,
    pub conditions: Vec<Condition>,
}

/// `SUBGRAPH ROOT <root> [DEPTH <n>] [DIRECTION <d>] [WHERE ...]`;
/// depth 3 and direction `Both` by default.
#[derive(Debug, PartialEq)]
pub struct SubgraphQuery {
    pub root: String,
    pub depth: u32,
    pub direction: TraversalDirection,
    pub conditions: Vec<Condition>,
}

/// View of a NEIGHBORS or SUBGRAPH body.
pub struct RootedV {
    pub root: Seq<char>,
    pub depth: u32,
    pub direction: TraversalDirection,
    pub conditions: Seq<ConditionV>,
}

impl View for NeighborsQuery {
    type V = RootedV;

    open spec fn view(&self) -> RootedV {
        RootedV {
            root: self.root@,
            depth: self.depth,
            direction: self.direction,
            conditions: conditions_view(self.conditions),
        }
    }
}

impl Clone for NeighborsQuery {
    fn clone(&self) -> (r: Self)
        ensures
            r@ == self@,
    {
        NeighborsQuery {
            root: self.root.clone(),
            depth: self.depth,
            direction: self.direction,
            conditions: clone_conditions(&self.conditions),
        }
    }
}

impl View for SubgraphQuery {
    type V = RootedV;

    open spec fn view(&self) -> RootedV {
        RootedV {
            root: self.root@,
            depth: self.depth,
            direction: self.direction,
            conditions: conditions_view(self.conditions),
        }
    }
}

impl Clone for SubgraphQuery {
    fn clone(&self) -> (r: Self)
        ensures
            r@ == self@,
    {
        SubgraphQuery {
            root: self.root.clone(),
            depth: self.depth,
            direction: self.direction,
            conditions: clone_conditions(&self.conditions),
        }
    }
}

/// How `CLUSTER` partitions the graph.
#[derive(Debug, Clone, Copy, PartialEq, Eq, Structural)]
pub enum ClusterMethod {
    /// Strongly connected components.
    Scc,
    /// Weakly connected components.
    Connected,
}

impl ClusterMethod {
    /// Wire form: `scc`, `connected`.
    pub fn keyword(&self) -> (r: &'static str)
        ensures
            r@ == match *self {
                ClusterMethod::Scc => "scc"@,
                ClusterMethod::Connected => "connected"@,
            },
    {
        match self {
            ClusterMethod::Scc => "scc",
            ClusterMethod::Connected => "connected",
        }
    }
}

/// `CLUSTER [METHOD (scc|connected)] [WHERE ...]`.
#[derive(Debug, PartialEq)]
pub struct ClusterQuery {
    pub method: ClusterMethod,
    pub conditions: Vec<Condition>,
}

pub struct ClusterV {
    pub method: ClusterMethod,
    pub conditions: Seq<ConditionV>,
}

impl View for ClusterQuery {
    type V = ClusterV;

    open spec fn view(&self) -> ClusterV {
        ClusterV { method: self.method, conditions: conditions_view(self.conditions) }
    }
}

impl Clone for ClusterQuery {
    fn clone(&self) -> (r: Self)
        ensures
            r@ == self@,
    {
        ClusterQuery { method: self.method, conditions: clone_conditions(&self.conditions) }
    }
}

/// `EXPLAIN FROM <from> TO <to> [WHERE ...]`.
#[derive(Debug, PartialEq)]
pub struct ExplainQuery {
    pub from: String,
    pub to: String,
    pub conditions: Vec<Condition>,
}

pub struct ExplainV {
    pub from: Seq<char>,
    pub to: Seq<char>,
    pub conditions: Seq<ConditionV>,
}

impl View for ExplainQuery {
    type V = ExplainV;

    open spec fn view(&self) -> ExplainV {
        ExplainV { from: self.from@, to: self.to@, conditions: conditions_view(self.conditions) }
    }
}

impl Clone for ExplainQuery {
    fn clone(&self) -> (r: Self)
        ensures
            r@ == self@,
    {
        ExplainQuery {
            from: self.from.clone(),
            to: self.to.clone(),
            conditions: clone_conditions(&self.conditions),
        }
    }
}

/// Operator joining the operands of a [`BooleanQuery`].
#[derive(Debug, Clone, Copy, PartialEq, Eq, Structural)]
pub enum BooleanOp {
    And,
    Or,
    Not,
}

impl BooleanOp {
    /// Wire form: `AND`, `OR`, `NOT`.
    pub fn keyword(&self) -> (r: &'static str)
        ensures
            r@ == match *self {
                BooleanOp::And => "AND"@,
                BooleanOp::Or => "OR"@,
                BooleanOp::Not => "NOT"@,
            },
    {
        match self {
            BooleanOp::And => "AND",
            BooleanOp::Or => "OR",
            BooleanOp::Not => "NOT",
        }
    }
}

/// Boolean composition: `NOT` wraps one sub-query, `AND` / `OR` join
/// two or more.
#[derive(Debug, PartialEq)]
pub struct BooleanQuery {
    pub op: BooleanOp,
    pub operands: Vec<MoldQLQuery>,
}

// ---------------------------------------------------------------------------
// Pattern Profile
// ---------------------------------------------------------------------------

/// A node binding: `(r:Route)` or anonymous `(:Route)`.
#[derive(Debug, PartialEq, Eq)]
pub struct Binding {
    pub name: Option<String>,
    pub kind: String,
}

/// Direction of an edge pattern.
#[derive(Debug, Clone, Copy, PartialEq, Eq, Structural)]
pub enum EdgeDirection {
    Outgoing,
    Incoming,
    Both,
}

/// A directed edge pattern between two bindings: `-[c:Calls*1..3]->`.
#[derive(Debug, PartialEq)]
pub struct EdgePattern {
    pub name: Option<String>,
    pub kind: String,
    pub quantifier: PathQuantifier,
    pub direction: EdgeDirection,
}

/// Path quantifier of a pattern edge; always bounded.
#[derive(Debug, Clone, Copy, PartialEq, Eq, Structural)]
pub struct PathQuantifier {
    pub max_hops: Option<u32>,
    pub min_hops: u32,
}

impl PathQuantifier {
    /// A bounded quantifier; `None` when `max_hops` is `None`.
    pub fn new(max_hops: Option<u32>, min_hops: u32) -> (r: Option<Self>)
        ensures
            max_hops is None ==> r is None,
            max_hops is Some ==> r == Some(PathQuantifier { max_hops, min_hops }),
    {
        if max_hops.is_none() {
            return None;
        }
        Some(PathQuantifier { max_hops, min_hops })
    }

    /// `?`: from 0 to 1 hop.
    pub fn optional() -> (r: Self)
        ensures
            r == (PathQuantifier { max_hops: Some(1), min_hops: 0 }),
    {
        PathQuantifier { max_hops: Some(1), min_hops: 0 }
    }

    /// `+`: from 1 hop to the profile's maximum.
    pub fn plus(max_hops: u32) -> (r: Self)
        ensures
            r == (PathQuantifier { max_hops: Some(max_hops), min_hops: 1 }),
    {
        PathQuantifier { max_hops: Some(max_hops), min_hops: 1 }
    }
}

/// What a `RETURN` clause projects.
#[derive(Debug, PartialEq)]
pub enum PatternProjection {
    /// `RETURN PATH(r, c, f)`.
    Path { bindings: Vec<String> },
    /// `RETURN NODE(f)`.
    Node { binding: String },
    /// `RETURN EDGE(c)`.
    Edge { binding: String },
    /// `RETURN f.module, COUNT(c) AS calls ORDER BY calls DESC LIMIT 5`.
    Row {
        fields: Vec<RowField>,
        group_by: Vec<String>,
        aggregations: Vec<Aggregation>,
        ordering: Option<OrderClause>,
        limit: Option<usize>,
    },
}

/// A field of a row projection.
#[derive(Debug, PartialEq, Eq)]
pub enum RowField {
    /// `f.module`.
    Property { binding: String, field: String },
    /// `COUNT(c) AS calls`, referred to by its alias.
    AggregationRef { name: String },
}

/// An aggregation of a row projection.
#[derive(Debug, PartialEq, Eq)]
pub enum Aggregation {
    Count { binding: Option<String>, alias: String },
}

/// Ordering direction.
#[derive(Debug, Clone, Copy, PartialEq, Eq, Structural)]
pub enum OrderDirection {
    Asc,
    Desc,
}

/// `ORDER BY <field> <direction>`.
#[derive(Debug, PartialEq)]
pub struct OrderClause {
    pub by: String,
    pub direction: OrderDirection,
}

/// A parsed Pattern Profile query.
#[derive(Debug, PartialEq)]
pub struct PatternQuery {
    /// The `SHORTEST` modifier.
    pub shortest: bool,
    /// Node bindings in order (first is the anchor, last the target).
    pub bindings: Vec<Binding>,
    /// Edge patterns between consecutive bindings.
    pub edges: Vec<EdgePattern>,
    /// Predicates over nodes and edges.
    pub predicates: Vec<PatternPredicate>,
    /// What to return.
    pub projection: PatternProjection,
}

/// A predicate over a node or an edge of a pattern.
#[derive(Debug, PartialEq)]
pub enum PatternPredicate {
    /// `n.module = "core"`.
    Property { target: PredicateTarget, field: String, op: PatternOp, value: PatternValue },
    /// `e.provenance = "tree_sitter"`.
    Provenance { target: Option<String>, source: String },
    /// `confidence >= 0.7`; the number as canonical decimal text.
    Confidence { target: PredicateTarget, op: PatternOp, value: String },
}

/// The target of a pattern predicate.
#[derive(Debug, PartialEq, Eq)]
pub enum PredicateTarget {
    Node(String),
    Edge(String),
    Anonymous,
}

/// Comparison operator of a pattern predicate.
#[derive(Debug, Clone, Copy, PartialEq, Eq, Structural)]
pub enum PatternOp {
    Gt,
    Gte,
    Lt,
    Lte,
    Eq,
    Neq,
}

/// The query-language comparison a pattern operator stands for.
pub open spec fn pattern_op_as_op(o: PatternOp) -> Op {
    match o {
        PatternOp::Gt => Op::Gt,
        PatternOp::Gte => Op::Gte,
        PatternOp::Lt => Op::Lt,
        PatternOp::Lte => Op::Lte,
        PatternOp::Eq => Op::Eq,
        PatternOp::Neq => Op::Neq,
    }
}

/// Value of a pattern predicate; a number as canonical decimal text.
#[derive(Debug, PartialEq)]
pub enum PatternValue {
    String(String),
    Number(String),
}

/// Top-level query.
#[derive(Debug, PartialEq)]
pub enum MoldQLQuery {
    /// `FIND <target> [IN SCOPE <path>] [WHERE ...] [APPLY <lens>]`
    Find(FindQuery),
    /// `EXPLORE <object_ref> THROUGH <direction> DEPTH <n>`
    Explore(ExploreQuery),
    /// `PATH FROM <from> TO <to> [MAX HOPS <n>] [WHERE ...]`
    Path(PathQuery),
    /// `NEIGHBORS <root> DEPTH <n> [DIRECTION <d>] [WHERE ...]`
    Neighbors(NeighborsQuery),
    /// `SUBGRAPH ROOT <root> [DEPTH <n>] [DIRECTION <d>] [WHERE ...]`
    Subgraph(SubgraphQuery),
    /// `CLUSTER [METHOD (scc|connected)] [WHERE ...]`
    Cluster(ClusterQuery),
    /// `EXPLAIN FROM <from> TO <to> [WHERE ...]`
    Explain(ExplainQuery),
    /// `( <q1> AND|OR <q2> ... )` or `NOT <q>`
    Boolean(BooleanQuery),
    /// `[SHORTEST] MATCH <pattern> [WHERE ...] RETURN ...`
    Pattern(PatternQuery),
}

fn copy_query(q: &MoldQLQuery) -> (r: MoldQLQuery)
    ensures
        r@ == q@,
    decreases q,
{
    match q {
        MoldQLQuery::Find(f) => MoldQLQuery::Find(f.clone()),
        MoldQLQuery::Explore(e) => MoldQLQuery::Explore(e.clone()),
        MoldQLQuery::Path(p) => MoldQLQuery::Path(p.clone()),
        MoldQLQuery::Neighbors(n) => MoldQLQuery::Neighbors(n.clone()),
        MoldQLQuery::Subgraph(s) => MoldQLQuery::Subgraph(s.clone()),
        MoldQLQuery::Cluster(c) => MoldQLQuery::Cluster(c.clone()),
        MoldQLQuery::Explain(e) => MoldQLQuery::Explain(e.clone()),
        MoldQLQuery::Boolean(b) => {
            let operands = copy_operands(b);
            let ghost ops = operands@;
            let r = MoldQLQuery::Boolean(BooleanQuery { op: b.op, operands });
            proof {
                if let QueryV::Boolean(_, rs) = r@ {
                    if let QueryV::Boolean(_, qs) = q@ {
                        assert forall|i: int| 0 <= i < rs.len() implies rs[i] == qs[i] by {
                            assert(rs[i] == query_view(ops[i]));
                            assert(qs[i] == query_view(b.operands@[i]));
                            assert(ops[i]@ == b.operands@[i]@);
                        }
                        assert(rs =~= qs);
                    }
                }
            }
            r
        },
        MoldQLQuery::Pattern(p) => MoldQLQuery::Pattern(p.clone()),
    }
}

/// Copies of the operands of `b`, one by one.
fn copy_operands(b: &BooleanQuery) -> (r: Vec<MoldQLQuery>)
    ensures
        r.len() == b.operands.len(),
        forall|j: int| 0 <= j < r.len() ==> #[trigger] r@[j]@ == b.operands@[j]@,
    decreases b, 0nat,
{
    let mut operands: Vec<MoldQLQuery> = Vec::new();
    let mut i: usize = 0;
    while i < b.operands.len()
        invariant
            i <= b.operands.len(),
            operands.len() == i,
            forall|j: int| 0 <= j < i ==> #[trigger] operands@[j]@ == b.operands@[j]@,
        decreases b.operands.len() - i,
    {
        proof {
            assert(decreases_to!(b => b.operands));
            assert(decreases_to!(b.operands => b.operands@));
            assert(decreases_to!(b.operands@ => b.operands@[i as int]));
        }
        operands.push(copy_query(&b.operands[i]));
        i = i + 1;
    }
    operands
}

impl Clone for MoldQLQuery {
    fn clone(&self) -> (r: Self)
        ensures
            r@ == self@,
    {
        copy_query(self)
    }
}

impl Clone for BooleanQuery {
    fn clone(&self) -> (r: Self)
        ensures
            r.op == self.op,
            r.operands.len() == self.operands.len(),
            forall|j: int| 0 <= j < r.operands.len() ==> #[trigger] r.operands@[j]@ == self.operands@[j]@,
    {
        BooleanQuery { op: self.op, operands: copy_operands(self) }
    }
}

/// View of a query.
pub enum QueryV {
    Find(FindV),
    Explore(ExploreV),
    Path(PathV),
    Neighbors(RootedV),
    Subgraph(RootedV),
    Cluster(ClusterV),
    Explain(ExplainV),
    Boolean(BooleanOp, Seq<QueryV>),
    Pattern(PatternV),
}

pub open spec fn query_view(q: MoldQLQuery) -> QueryV
    decreases q,
{
    match q {
        MoldQLQuery::Find(f) => QueryV::Find(f@),
        MoldQLQuery::Explore(e) => QueryV::Explore(e@),
        MoldQLQuery::Path(p) => QueryV::Path(p@),
        MoldQLQuery::Neighbors(n) => QueryV::Neighbors(n@),
        MoldQLQuery::Subgraph(s) => QueryV::Subgraph(s@),
        MoldQLQuery::Cluster(c) => QueryV::Cluster(c@),
        MoldQLQuery::Explain(e) => QueryV::Explain(e@),
        MoldQLQuery::Boolean(b) => QueryV::Boolean(
            b.op,
            Seq::new(
                b.operands@.len(),
                |i: int|
                    {
                        if 0 <= i < b.operands@.len() {
                            proof {
                                assert(decreases_to!(b.operands => b.operands@));
                            }
                            query_view(b.operands@[i])
                        } else {
                            QueryV::Cluster(ClusterV { method: ClusterMethod::Scc, conditions: Seq::empty() })
                        }
                    },
            ),
        ),
        MoldQLQuery::Pattern(p) => QueryV::Pattern(p@),
    }
}

impl View for MoldQLQuery {
    type V = QueryV;

    open spec fn view(&self) -> QueryV {
        query_view(*self)
    }
}

impl View for TargetType {
    type V = TargetType;

    open spec fn view(&self) -> TargetType {
        *self
    }
}

impl View for Op {
    type V = Op;

    open spec fn view(&self) -> Op {
        *self
    }
}

impl View for Direction {
    type V = Direction;

    open spec fn view(&self) -> Direction {
        *self
    }
}

impl View for TraversalDirection {
    type V = TraversalDirection;

    open spec fn view(&self) -> TraversalDirection {
        *self
    }
}

impl View for ClusterMethod {
    type V = ClusterMethod;

    open spec fn view(&self) -> ClusterMethod {
        *self
    }
}

// ---------------------------------------------------------------------------
// Views of the Pattern Profile types
// ---------------------------------------------------------------------------

pub open spec fn strings_view(v: Vec<String>) -> Seq<Seq<char>> {
    v@.map_values(|x: String| x@)
}

/// A copy of `v`, string by string.
fn clone_strings(v: &Vec<String>) -> (r: Vec<String>)
    ensures
        strings_view(r) == strings_view(*v),
{
    let r = v.clone();
    assert forall|i: int| 0 <= i < r.len() implies #[trigger] r@[i]@ == v@[i]@ by {
        assert(cloned::<String>(v[i], r[i]));
    }
    assert(strings_view(r) =~= strings_view(*v));
    r
}

pub struct BindingV {
    pub name: Option<Seq<char>>,
    pub kind: Seq<char>,
}

impl View for Binding {
    type V = BindingV;

    open spec fn view(&self) -> BindingV {
        BindingV { name: opt_view(self.name), kind: self.kind@ }
    }
}

impl Clone for Binding {
    fn clone(&self) -> (r: Self)
        ensures
            r@ == self@,
    {
        Binding { name: self.name.clone(), kind: self.kind.clone() }
    }
}

pub struct EdgeV {
    pub name: Option<Seq<char>>,
    pub kind: Seq<char>,
    pub quantifier: PathQuantifier,
    pub direction: EdgeDirection,
}

impl View for EdgePattern {
    type V = EdgeV;

    open spec fn view(&self) -> EdgeV {
        EdgeV {
            name: opt_view(self.name),
            kind: self.kind@,
            quantifier: self.quantifier,
            direction: self.direction,
        }
    }
}

impl Clone for EdgePattern {
    fn clone(&self) -> (r: Self)
        ensures
            r@ == self@,
    {
        EdgePattern {
            name: self.name.clone(),
            kind: self.kind.clone(),
            quantifier: self.quantifier,
            direction: self.direction,
        }
    }
}

impl View for PathQuantifier {
    type V = PathQuantifier;

    open spec fn view(&self) -> PathQuantifier {
        *self
    }
}

impl View for EdgeDirection {
    type V = EdgeDirection;

    open spec fn view(&self) -> EdgeDirection {
        *self
    }
}

impl View for PatternOp {
    type V = PatternOp;

    open spec fn view(&self) -> PatternOp {
        *self
    }
}

impl View for OrderDirection {
    type V = OrderDirection;

    open spec fn view(&self) -> OrderDirection {
        *self
    }
}

pub enum TargetV {
    Node(Seq<char>),
    Edge(Seq<char>),
    Anonymous,
}

impl View for PredicateTarget {
    type V = TargetV;

    open spec fn view(&self) -> TargetV {
        match self {
            PredicateTarget::Node(n) => TargetV::Node(n@),
            PredicateTarget::Edge(e) => TargetV::Edge(e@),
            PredicateTarget::Anonymous => TargetV::Anonymous,
        }
    }
}

impl Clone for PredicateTarget {
    fn clone(&self) -> (r: Self)
        ensures
            r@ == self@,
    {
        match self {
            PredicateTarget::Node(n) => PredicateTarget::Node(n.clone()),
            PredicateTarget::Edge(e) => PredicateTarget::Edge(e.clone()),
            PredicateTarget::Anonymous => PredicateTarget::Anonymous,
        }
    }
}

pub enum PatternValueV {
    Str(Seq<char>),
    Number(Seq<char>),
}

impl View for PatternValue {
    type V = PatternValueV;

    open spec fn view(&self) -> PatternValueV {
        match self {
            PatternValue::String(s) => PatternValueV::Str(s@),
            PatternValue::Number(n) => PatternValueV::Number(n@),
        }
    }
}

impl Clone for PatternValue {
    fn clone(&self) -> (r: Self)
        ensures
            r@ == self@,
    {
        match self {
            PatternValue::String(t) => PatternValue::String(t.clone()),
            PatternValue::Number(n) => PatternValue::Number(n.clone()),
        }
    }
}

pub enum PredicateV {
    Property { target: TargetV, field: Seq<char>, op: PatternOp, value: PatternValueV },
    Provenance { target: Option<Seq<char>>, source: Seq<char> },
    Confidence { target: TargetV, op: PatternOp, value: Seq<char> },
}

impl View for PatternPredicate {
    type V = PredicateV;

    open spec fn view(&self) -> PredicateV {
        match self {
            PatternPredicate::Property { target, field, op, value } => PredicateV::Property {
                target: target@,
                field: field@,
                op: *op,
                value: value@,
            },
            PatternPredicate::Provenance { target, source } => PredicateV::Provenance {
                target: opt_view(*target),
                source: source@,
            },
            PatternPredicate::Confidence { target, op, value } => PredicateV::Confidence {
                target: target@,
                op: *op,
                value: value@,
            },
        }
    }
}

impl Clone for PatternPredicate {
    fn clone(&self) -> (r: Self)
        ensures
            r@ == self@,
    {
        match self {
            PatternPredicate::Property { target, field, op, value } => PatternPredicate::Property {
                target: target.clone(),
                field: field.clone(),
                op: *op,
                value: value.clone(),
            },
            PatternPredicate::Provenance { target, source } => PatternPredicate::Provenance {
                target: target.clone(),
                source: source.clone(),
            },
            PatternPredicate::Confidence { target, op, value } => PatternPredicate::Confidence {
                target: target.clone(),
                op: *op,
                value: value.clone(),
            },
        }
    }
}

pub enum RowFieldV {
    Property { binding: Seq<char>, field: Seq<char> },
    AggregationRef { name: Seq<char> },
}

impl View for RowField {
    type V = RowFieldV;

    open spec fn view(&self) -> RowFieldV {
        match self {
            RowField::Property { binding, field } => RowFieldV::Property {
                binding: binding@,
                field: field@,
            },
            RowField::AggregationRef { name } => RowFieldV::AggregationRef { name: name@ },
        }
    }
}

impl Clone for RowField {
    fn clone(&self) -> (r: Self)
        ensures
            r@ == self@,
    {
        match self {
            RowField::Property { binding, field } => RowField::Property {
                binding: binding.clone(),
                field: field.clone(),
            },
            RowField::AggregationRef { name } => RowField::AggregationRef { name: name.clone() },
        }
    }
}

pub enum AggregationV {
    Count { binding: Option<Seq<char>>, alias: Seq<char> },
}

impl View for Aggregation {
    type V = AggregationV;

    open spec fn view(&self) -> AggregationV {
        match self {
            Aggregation::Count { binding, alias } => AggregationV::Count {
                binding: opt_view(*binding),
                alias: alias@,
            },
        }
    }
}

impl Clone for Aggregation {
    fn clone(&self) -> (r: Self)
        ensures
            r@ == self@,
    {
        match self {
            Aggregation::Count { binding, alias } => Aggregation::Count {
                binding: binding.clone(),
                alias: alias.clone(),
            },
        }
    }
}

pub struct OrderV {
    pub by: Seq<char>,
    pub direction: OrderDirection,
}

impl View for OrderClause {
    type V = OrderV;

    open spec fn view(&self) -> OrderV {
        OrderV { by: self.by@, direction: self.direction }
    }
}

impl Clone for OrderClause {
    fn clone(&self) -> (r: Self)
        ensures
            r@ == self@,
    {
        OrderClause { by: self.by.clone(), direction: self.direction }
    }
}

pub enum ProjectionV {
    Path(Seq<Seq<char>>),
    Node(Seq<char>),
    Edge(Seq<char>),
    Row {
        fields: Seq<RowFieldV>,
        group_by: Seq<Seq<char>>,
        aggregations: Seq<AggregationV>,
        ordering: Option<OrderV>,
        limit: Option<usize>,
    },
}

impl View for PatternProjection {
    type V = ProjectionV;

    open spec fn view(&self) -> ProjectionV {
        match self {
            PatternProjection::Path { bindings } => ProjectionV::Path(strings_view(*bindings)),
            PatternProjection::Node { binding } => ProjectionV::Node(binding@),
            PatternProjection::Edge { binding } => ProjectionV::Edge(binding@),
            PatternProjection::Row { fields, group_by, aggregations, ordering, limit } => {
                ProjectionV::Row {
                    fields: fields@.map_values(|f: RowField| f@),
                    group_by: strings_view(*group_by),
                    aggregations: aggregations@.map_values(|a: Aggregation| a@),
                    ordering: match ordering {
                        Some(o) => Some(o@),
                        None => None,
                    },
                    limit: *limit,
                }
            },
        }
    }
}

impl Clone for PatternProjection {
    fn clone(&self) -> (r: Self)
        ensures
            r@ == self@,
    {
        match self {
            PatternProjection::Path { bindings } => PatternProjection::Path {
                bindings: clone_strings(bindings),
            },
            PatternProjection::Node { binding } => PatternProjection::Node { binding: binding.clone() },
            PatternProjection::Edge { binding } => PatternProjection::Edge { binding: binding.clone() },
            PatternProjection::Row { fields, group_by, aggregations, ordering, limit } => {
                let f2 = fields.clone();
                assert forall|i: int| 0 <= i < f2.len() implies #[trigger] f2@[i]@ == fields@[i]@ by {
                    assert(cloned::<RowField>(fields[i], f2[i]));
                }
                let a2 = aggregations.clone();
                assert forall|i: int| 0 <= i < a2.len() implies #[trigger] a2@[i]@
                    == aggregations@[i]@ by {
                    assert(cloned::<Aggregation>(aggregations[i], a2[i]));
                }
                let o2 = match ordering {
                    Some(o) => Some(o.clone()),
                    None => None,
                };
                let r = PatternProjection::Row {
                    fields: f2,
                    group_by: clone_strings(group_by),
                    aggregations: a2,
                    ordering: o2,
                    limit: *limit,
                };
                assert(f2@.map_values(|f: RowField| f@) =~= fields@.map_values(|f: RowField| f@));
                assert(a2@.map_values(|a: Aggregation| a@) =~= aggregations@.map_values(
                    |a: Aggregation| a@,
                ));
                r
            },
        }
    }
}

pub struct PatternV {
    pub shortest: bool,
    pub bindings: Seq<BindingV>,
    pub edges: Seq<EdgeV>,
    pub predicates: Seq<PredicateV>,
    pub projection: ProjectionV,
}

impl View for PatternQuery {
    type V = PatternV;

    open spec fn view(&self) -> PatternV {
        PatternV {
            shortest: self.shortest,
            bindings: self.bindings@.map_values(|b: Binding| b@),
            edges: self.edges@.map_values(|e: EdgePattern| e@),
            predicates: self.predicates@.map_values(|p: PatternPredicate| p@),
            projection: self.projection@,
        }
    }
}

impl Clone for PatternQuery {
    fn clone(&self) -> (r: Self)
        ensures
            r@ == self@,
    {
        let b2 = self.bindings.clone();
        assert forall|i: int| 0 <= i < b2.len() implies #[trigger] b2@[i]@ == self.bindings@[i]@ by {
            assert(cloned::<Binding>(self.bindings[i], b2[i]));
        }
        let e2 = self.edges.clone();
        assert forall|i: int| 0 <= i < e2.len() implies #[trigger] e2@[i]@ == self.edges@[i]@ by {
            assert(cloned::<EdgePattern>(self.edges[i], e2[i]));
        }
        let p2 = self.predicates.clone();
        assert forall|i: int| 0 <= i < p2.len() implies #[trigger] p2@[i]@
            == self.predicates@[i]@ by {
            assert(cloned::<PatternPredicate>(self.predicates[i], p2[i]));
        }
        let r = PatternQuery {
            shortest: self.shortest,
            bindings: b2,
            edges: e2,
            predicates: p2,
            projection: self.projection.clone(),
        };
        assert(r@.bindings =~= self@.bindings);
        assert(r@.edges =~= self@.edges);
        assert(r@.predicates =~= self@.predicates);
        r
    }
}

} // verus!
