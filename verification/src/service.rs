//! Decisions the explorer service makes on plain text: whether the
//! inputs of a named view are acceptable, which style class a node kind
//! gets, and how a stored named view is reopened.

use vstd::prelude::*;
use crate::text::{owned, concat, append, chars_of, is_lit, chars_eq, u64_to_string, decimal, text_le};

verus! {

/// Longest accepted name of a named view, in characters.
pub const MAX_VIEW_NAME_CHARS: usize = 200;

/// Longest accepted description of a named view, in characters.
pub const MAX_VIEW_DESCRIPTION_CHARS: usize = 2000;

/// An input the service refuses, with the reason.
#[derive(Debug, Clone, PartialEq, Eq)]
pub struct InvalidInput {
    pub message: String,
}

/// The first problem with the inputs of a named view, if any.
pub open spec fn view_input_problem(
    workspace_id: Seq<char>,
    owner: Seq<char>,
    name: Seq<char>,
    description: Option<Seq<char>>,
    level: Seq<char>,
    lens: Seq<char>,
    focus_node: Seq<char>,
    max_depth: i32,
) -> Option<Seq<char>> {
    if workspace_id.len() == 0 {
        Some("workspace_id is required"@)
    } else if owner.len() == 0 {
        Some("owner is required"@)
    } else if name.len() == 0 {
        Some("name is required"@)
    } else if name.len() > MAX_VIEW_NAME_CHARS {
        Some("name must be at most 200 characters"@)
    } else if level.len() == 0 {
        Some("level is required"@)
    } else if lens.len() == 0 {
        Some("lens is required"@)
    } else if focus_node.len() == 0 {
        Some("focus_node is required"@)
    } else if max_depth < 0 {
        Some("max_depth must be >= 0"@)
    } else {
        match description {
            Some(d) => if d.len() > MAX_VIEW_DESCRIPTION_CHARS {
                Some("description must be at most 2000 characters"@)
            } else {
                None
            },
            None => None,
        }
    }
}

fn invalid(message: &str) -> (r: Result<(), InvalidInput>)
    ensures
        r matches Err(e) && e.message@ == message@,
{
    Err(InvalidInput { message: owned(message) })
}

/// Checks the inputs of a named view before it is saved: every field is
/// required, the name holds at most 200 characters, the description at
/// most 2000, and the depth is not negative. The error names the first
/// problem.
pub fn validate_view_inputs(
    workspace_id: &str,
    owner: &str,
    name: &str,
    description: Option<&str>,
    level: &str,
    lens: &str,
    focus_node: &str,
    max_depth: i32,
) -> (r: Result<(), InvalidInput>)
    ensures
        match view_input_problem(
            workspace_id@,
            owner@,
            name@,
            match description {
                Some(d) => Some(d@),
                None => None,
            },
            level@,
            lens@,
            focus_node@,
            max_depth,
        ) {
            Some(m) => r matches Err(e) && e.message@ == m,
            None => r is Ok,
        },
{
    if chars_of(workspace_id).len() == 0 {
        return invalid("workspace_id is required");
    }
    if chars_of(owner).len() == 0 {
        return invalid("owner is required");
    }
    let name_len = chars_of(name).len();
    if name_len == 0 {
        return invalid("name is required");
    }
    if name_len > MAX_VIEW_NAME_CHARS {
        return invalid("name must be at most 200 characters");
    }
    if chars_of(level).len() == 0 {
        return invalid("level is required");
    }
    if chars_of(lens).len() == 0 {
        return invalid("lens is required");
    }
    if chars_of(focus_node).len() == 0 {
        return invalid("focus_node is required");
    }
    if max_depth < 0 {
        return invalid("max_depth must be >= 0");
    }
    match description {
        Some(d) => {
            if chars_of(d).len() > MAX_VIEW_DESCRIPTION_CHARS {
                return invalid("description must be at most 2000 characters");
            }
        },
        None => {},
    }
    Ok(())
}

/// The style class of a node of kind `kind`.
pub open spec fn style_class(kind: Seq<char>) -> Seq<char> {
    if kind == "function"@ || kind == "method"@ || kind == "fn"@ {
        "function"@
    } else if kind == "module"@ || kind == "crate"@ || kind == "trait"@ {
        "module"@
    } else if kind == "external"@ {
        "external"@
    } else if kind == "file"@ {
        "module"@
    } else {
        "function"@
    }
}

/// The style class of a node of kind `kind`: `module` for modules,
/// crates, traits and files, `external` for external symbols, and
/// `function` for everything else.
pub fn style_class_for_kind(kind: &str) -> (r: &'static str)
    ensures
        r@ == style_class(kind@),
{
    let k = chars_of(kind);
    if is_lit(&k, "function") || is_lit(&k, "method") || is_lit(&k, "fn") {
        "function"
    } else if is_lit(&k, "module") || is_lit(&k, "crate") || is_lit(&k, "trait") {
        "module"
    } else if is_lit(&k, "external") {
        "external"
    } else if is_lit(&k, "file") {
        "module"
    } else {
        "function"
    }
}

/// The object kind a stored level names.
pub open spec fn focus_prefix(level: Seq<char>) -> Seq<char> {
    if level == "file"@ {
        "file"@
    } else if level == "scope"@ || level == "module"@ {
        "scope"@
    } else if level == "issue"@ || level == "quality"@ {
        "issue"@
    } else {
        "symbol"@
    }
}

/// The MVP id that reopens a named view stored as `(level, focus_node)`:
/// `<kind>:<focus_node>`, where the level names the kind and anything
/// unknown is a symbol.
pub fn view_focus_mvp_id(level: &str, focus_node: &str) -> (r: String)
    ensures
        r@ == focus_prefix(level@) + ":"@ + focus_node@,
{
    let l = chars_of(level);
    let prefix = if is_lit(&l, "file") {
        "file:"
    } else if is_lit(&l, "scope") || is_lit(&l, "module") {
        "scope:"
    } else if is_lit(&l, "issue") || is_lit(&l, "quality") {
        "issue:"
    } else {
        "symbol:"
    };
    let r = concat(prefix, focus_node);
    proof {
        reveal_strlit("file:");
        reveal_strlit("scope:");
        reveal_strlit("issue:");
        reveal_strlit("symbol:");
        reveal_strlit("file");
        reveal_strlit("scope");
        reveal_strlit("issue");
        reveal_strlit("symbol");
        reveal_strlit(":");
        assert(prefix@ == focus_prefix(level@) + ":"@);
    }
    r
}

/// The view id of a stored lens: `callgraph` is the call-graph view;
/// every other lens names its view itself.
pub fn lens_to_view_id(lens: &str) -> (r: &str)
    ensures
        r@ == if lens@ == "callgraph"@ {
            "call-graph"@
        } else {
            lens@
        },
{
    let l = chars_of(lens);
    if is_lit(&l, "callgraph") {
        "call-graph"
    } else {
        lens
    }
}

/// The Markdown report of an exploration whose path is not in the
/// session store.
pub fn render_replay_markdown_unknown(exploration_id: &str) -> (r: String)
    ensures
        r@ == "# Symbol exploration report\n\nExploration: `"@ + exploration_id@
            + "`\n\n_No path data found in session store — the exploration may have been created in another process._\n"@,
{
    let head = concat("# Symbol exploration report\n\nExploration: `", exploration_id);
    concat(
        head.as_str(),
        "`\n\n_No path data found in session store — the exploration may have been created in another process._\n",
    )
}


// ---------------------------------------------------------------------------
// Contextual graph
// ---------------------------------------------------------------------------

/// A node of a contextual graph.
#[derive(Debug, PartialEq, Eq)]
pub struct GraphNodeData {
    pub id: String,
    pub label: String,
    pub kind: String,
    pub file: Option<String>,
    pub line: Option<u32>,
    pub style_class: String,
}

/// An edge of a contextual graph.
#[derive(Debug, Clone, PartialEq, Eq)]
pub struct GraphEdgeData {
    pub source: String,
    pub target: String,
    pub relation: String,
    pub style_class: String,
}

pub struct NodeV {
    pub id: Seq<char>,
    pub label: Seq<char>,
    pub kind: Seq<char>,
    pub file: Option<Seq<char>>,
    pub line: Option<u32>,
    pub style_class: Seq<char>,
}

pub struct EdgeV {
    pub source: Seq<char>,
    pub target: Seq<char>,
    pub relation: Seq<char>,
    pub style_class: Seq<char>,
}

pub open spec fn opt_text(o: Option<String>) -> Option<Seq<char>> {
    match o {
        Some(t) => Some(t@),
        None => None,
    }
}

impl View for GraphNodeData {
    type V = NodeV;

    open spec fn view(&self) -> NodeV {
        NodeV {
            id: self.id@,
            label: self.label@,
            kind: self.kind@,
            file: opt_text(self.file),
            line: self.line,
            style_class: self.style_class@,
        }
    }
}

impl Clone for GraphNodeData {
    fn clone(&self) -> (r: Self)
        ensures
            r@ == self@,
    {
        GraphNodeData {
            id: self.id.clone(),
            label: self.label.clone(),
            kind: self.kind.clone(),
            file: self.file.clone(),
            line: self.line,
            style_class: self.style_class.clone(),
        }
    }
}

impl View for GraphEdgeData {
    type V = EdgeV;

    open spec fn view(&self) -> EdgeV {
        EdgeV {
            source: self.source@,
            target: self.target@,
            relation: self.relation@,
            style_class: self.style_class@,
        }
    }
}

pub open spec fn nodes_view(v: Seq<GraphNodeData>) -> Seq<NodeV> {
    v.map_values(|n: GraphNodeData| n@)
}

pub open spec fn edges_view(v: Seq<GraphEdgeData>) -> Seq<EdgeV> {
    v.map_values(|e: GraphEdgeData| e@)
}

/// The parent and children of a focus symbol in its file.
#[derive(Debug)]
pub struct ContextualParts {
    /// The file node and the focus's `lives_in` edge to it.
    pub parent: Option<(GraphNodeData, GraphEdgeData)>,
    /// The other symbols of the file, and their `lives_in` edges to the
    /// focus.
    pub children: Option<(Vec<GraphNodeData>, Vec<GraphEdgeData>)>,
    /// Children were dropped to keep within the node budget.
    pub children_clipped: bool,
}

/// A `lives_in` edge from `source` to `target`.
pub open spec fn lives_in(source: Seq<char>, target: Seq<char>) -> EdgeV {
    EdgeV { source, target, relation: "lives_in"@, style_class: "edge.calls"@ }
}

/// The file node a focus in `file` lives in.
pub open spec fn file_node(file: Seq<char>) -> NodeV {
    NodeV {
        id: "file:"@ + file,
        label: file,
        kind: "file"@,
        file: Some(file),
        line: None,
        style_class: "module"@,
    }
}

/// The symbols of the file other than the focus, in order.
pub open spec fn children_of(sibs: Seq<NodeV>, focus_id: Seq<char>) -> Seq<NodeV> {
    sibs.filter(|n: NodeV| n.id != focus_id)
}

/// The children kept within a budget of `max_nodes`: the first ones.
pub open spec fn kept_children(c: Seq<NodeV>, max_nodes: int) -> Seq<NodeV> {
    if c.len() > max_nodes {
        c.take(max_nodes)
    } else {
        c
    }
}

pub open spec fn node_ids(v: Seq<NodeV>) -> Seq<Seq<char>> {
    v.map_values(|n: NodeV| n.id)
}

/// The `lives_in` edges of the children whose id a kept child has.
pub open spec fn child_edges(c: Seq<NodeV>, kept: Seq<NodeV>, focus_id: Seq<char>) -> Seq<EdgeV> {
    c.filter(|n: NodeV| node_ids(kept).contains(n.id)).map_values(
        |n: NodeV| lives_in(n.id, focus_id),
    )
}

/// The first problem with a contextual-graph request, if any.
pub open spec fn contextual_request_problem(level: Seq<char>, depth: u8, max_nodes: usize) -> Option<
    Seq<char>,
> {
    if level != "file"@ {
        Some("level must be 'file' in Phase 1 (got: "@ + level + ")"@)
    } else if !(1 <= depth <= 2) {
        Some("depth must be in 1..=2 (got: "@ + decimal(depth as nat) + ")"@)
    } else if !(50 <= max_nodes <= 500) {
        Some("max_nodes must be in 50..=500 (got: "@ + decimal(max_nodes as nat) + ")"@)
    } else {
        None
    }
}

/// Checks a contextual-graph request: the level must be `file`, the
/// depth within 1..=2 and the node budget within 50..=500, checked in
/// that order; the error names the first that fails.
pub fn check_contextual_graph_request(level: &str, depth: u8, max_nodes: usize) -> (r: Result<
    (),
    String,
>)
    ensures
        match contextual_request_problem(level@, depth, max_nodes) {
            Some(m) => r matches Err(e) && e@ == m,
            None => r is Ok,
        },
{
    let l = chars_of(level);
    if !is_lit(&l, "file") {
        let mut m = concat("level must be 'file' in Phase 1 (got: ", level);
        append(&mut m, ")");
        return Err(m);
    }
    if !(1 <= depth && depth <= 2) {
        let d = u64_to_string(depth as u64);
        let mut m = concat("depth must be in 1..=2 (got: ", d.as_str());
        append(&mut m, ")");
        return Err(m);
    }
    if !(50 <= max_nodes && max_nodes <= 500) {
        let d = u64_to_string(max_nodes as u64);
        let mut m = concat("max_nodes must be in 50..=500 (got: ", d.as_str());
        append(&mut m, ")");
        return Err(m);
    }
    Ok(())
}

/// One step of a filter over a prefix.
proof fn lemma_filter_step<A>(s: Seq<A>, i: int, p: spec_fn(A) -> bool)
    requires
        0 <= i < s.len(),
    ensures
        s.take(i + 1).filter(p) == if p(s[i]) {
            s.take(i).filter(p).push(s[i])
        } else {
            s.take(i).filter(p)
        },
{
    reveal(Seq::filter);
    assert(s.take(i + 1).drop_last() =~= s.take(i));
}

fn same_text(a: &String, b: &String) -> (r: bool)
    ensures
        r == (a@ == b@),
{
    let x = chars_of(a.as_str());
    let y = chars_of(b.as_str());
    chars_eq(&x, &y)
}

/// Some node among the first `k` of `ns` has the id `id`.
fn id_in_first(ns: &Vec<GraphNodeData>, k: usize, id: &String) -> (r: bool)
    requires
        k <= ns.len(),
    ensures
        r == node_ids(nodes_view(ns@).take(k as int)).contains(id@),
{
    let ghost ids = node_ids(nodes_view(ns@).take(k as int));
    let mut j: usize = 0;
    while j < k
        invariant
            j <= k <= ns.len(),
            ids == node_ids(nodes_view(ns@).take(k as int)),
            forall|m: int| 0 <= m < j ==> ids[m] != id@,
        decreases k - j,
    {
        assert(ids[j as int] == ns@[j as int]@.id);
        if same_text(&ns[j].id, id) {
            assert(ids[j as int] == id@);
            return true;
        }
        j = j + 1;
    }
    assert(!ids.contains(id@)) by {
        if ids.contains(id@) {
            let m = choose|m: int| 0 <= m < ids.len() && ids[m] == id@;
            assert(ids[m] != id@);
        }
    }
    false
}

fn lives_in_edge(source: &String, target: &str) -> (r: GraphEdgeData)
    ensures
        r@ == lives_in(source@, target@),
{
    GraphEdgeData {
        source: source.clone(),
        target: owned(target),
        relation: owned("lives_in"),
        style_class: owned("edge.calls"),
    }
}

/// The parent and children of the focus `focus_id`, which lives in
/// `focus_file`, given the symbols of that file (`siblings`, the focus
/// among them): no parent and no children when the file has no symbols;
/// otherwise the file node with the focus's `lives_in` edge to it, and
/// every other symbol of the file, the first `max_nodes` of them kept,
/// with a `lives_in` edge to the focus for each kept one.
pub fn assemble_contextual_graph(
    focus_id: &str,
    focus_file: &str,
    siblings: Vec<GraphNodeData>,
    max_nodes: usize,
) -> (r: ContextualParts)
    ensures
        (r.parent is None) == (siblings.len() == 0),
        (r.children is None) == (siblings.len() == 0),
        r.parent matches Some((n, e)) ==> n@ == file_node(focus_file@) && e@ == lives_in(
            focus_id@,
            "file:"@ + focus_file@,
        ),
        r.children matches Some((ns, es)) ==> {
            let c = children_of(nodes_view(siblings@), focus_id@);
            let kept = kept_children(c, max_nodes as int);
            &&& nodes_view(ns@) == kept
            &&& edges_view(es@) == child_edges(c, kept, focus_id@)
        },
        r.children_clipped == (siblings.len() > 0 && children_of(
            nodes_view(siblings@),
            focus_id@,
        ).len() > max_nodes),
{
    if siblings.len() == 0 {
        return ContextualParts { parent: None, children: None, children_clipped: false };
    }
    let ghost sv = nodes_view(siblings@);
    let ghost fid = focus_id@;
    let ghost pc = |n: NodeV| n.id != fid;
    let fid_s = owned(focus_id);
    // Children: every sibling but the focus.
    let mut children: Vec<GraphNodeData> = Vec::new();
    let mut i: usize = 0;
    while i < siblings.len()
        invariant
            i <= siblings.len(),
            sv == nodes_view(siblings@),
            fid == focus_id@,
            fid_s@ == fid,
            pc == (|n: NodeV| n.id != fid),
            nodes_view(children@) == sv.take(i as int).filter(pc),
        decreases siblings.len() - i,
    {
        proof {
            lemma_filter_step(sv, i as int, pc);
            assert(sv[i as int] == siblings@[i as int]@);
        }
        if !same_text(&siblings[i].id, &fid_s) {
            let n = siblings[i].clone();
            let ghost before = nodes_view(children@);
            children.push(n);
            assert(nodes_view(children@) =~= before.push(sv[i as int]));
        }
        i = i + 1;
    }
    assert(sv.take(sv.len() as int) =~= sv);
    let ghost c = nodes_view(children@);
    assert(c == children_of(sv, fid));
    let clipped = children.len() > max_nodes;
    let k: usize = if clipped {
        max_nodes
    } else {
        children.len()
    };
    let ghost kept = kept_children(c, max_nodes as int);
    assert(kept =~= c.take(k as int));
    // Edges of the kept children.
    let ghost pe = |n: NodeV| node_ids(kept).contains(n.id);
    let mut edges: Vec<GraphEdgeData> = Vec::new();
    let mut j: usize = 0;
    while j < children.len()
        invariant
            j <= children.len(),
            k <= children.len(),
            c == nodes_view(children@),
            kept == c.take(k as int),
            fid == focus_id@,
            pe == (|n: NodeV| node_ids(kept).contains(n.id)),
            edges_view(edges@) == c.take(j as int).filter(pe).map_values(
                |n: NodeV| lives_in(n.id, fid),
            ),
        decreases children.len() - j,
    {
        proof {
            lemma_filter_step(c, j as int, pe);
            assert(c[j as int] == children@[j as int]@);
        }
        if id_in_first(&children, k, &children[j].id) {
            let e = lives_in_edge(&children[j].id, focus_id);
            let ghost before = edges_view(edges@);
            edges.push(e);
            assert(edges_view(edges@) =~= before.push(lives_in(c[j as int].id, fid)));
            assert(c.take(j + 1).filter(pe).map_values(|n: NodeV| lives_in(n.id, fid))
                =~= c.take(j as int).filter(pe).map_values(|n: NodeV| lives_in(n.id, fid)).push(
                lives_in(c[j as int].id, fid),
            ));
        }
        j = j + 1;
    }
    assert(c.take(c.len() as int) =~= c);
    children.truncate(k);
    assert(nodes_view(children@) =~= kept);
    let parent_node = GraphNodeData {
        id: concat("file:", focus_file),
        label: owned(focus_file),
        kind: owned("file"),
        file: Some(owned(focus_file)),
        line: None,
        style_class: owned("module"),
    };
    let parent_edge = GraphEdgeData {
        source: fid_s,
        target: concat("file:", focus_file),
        relation: owned("lives_in"),
        style_class: owned("edge.calls"),
    };
    ContextualParts {
        parent: Some((parent_node, parent_edge)),
        children: Some((children, edges)),
        children_clipped: clipped,
    }
}

/// The focus is never one of its own children, at most `max_nodes`
/// children are kept, and every kept child has its edge.
pub proof fn law_children_within_budget(sibs: Seq<NodeV>, focus_id: Seq<char>, max_nodes: nat)
    ensures
        ({
            let c = children_of(sibs, focus_id);
            let kept = kept_children(c, max_nodes as int);
            &&& kept.len() <= max_nodes
            &&& forall|i: int| 0 <= i < kept.len() ==> (#[trigger] kept[i]).id != focus_id
            &&& forall|i: int|
                0 <= i < kept.len() ==> child_edges(c, kept, focus_id).contains(
                    lives_in((#[trigger] kept[i]).id, focus_id),
                )
        }),
{
    broadcast use vstd::seq_lib::group_filter_ensures;

    let c = children_of(sibs, focus_id);
    let kept = kept_children(c, max_nodes as int);
    let pc = |n: NodeV| n.id != focus_id;
    let pe = |n: NodeV| node_ids(kept).contains(n.id);
    assert forall|i: int| 0 <= i < kept.len() implies (#[trigger] kept[i]).id != focus_id by {
        assert(kept[i] == c[i]);
        assert(pc(c[i]));
    }
    assert forall|i: int| 0 <= i < kept.len() implies child_edges(c, kept, focus_id).contains(
        lives_in((#[trigger] kept[i]).id, focus_id),
    ) by {
        assert(kept[i] == c[i]);
        assert(node_ids(kept)[i] == kept[i].id);
        assert(pe(c[i]));
        assert(c.filter(pe).contains(c[i]));
        let m = choose|m: int| 0 <= m < c.filter(pe).len() && c.filter(pe)[m] == c[i];
        assert(child_edges(c, kept, focus_id)[m] == lives_in(c[i].id, focus_id));
    }
}

/// The node budget left for the same-level walk: `max_nodes` less the
/// children kept (children take priority).
pub fn same_level_budget(max_nodes: usize, parts: &ContextualParts) -> (r: usize)
    ensures
        r as int == match parts.children {
            Some((ns, _)) => if ns.len() <= max_nodes {
                max_nodes - ns.len()
            } else {
                0
            },
            None => max_nodes as int,
        },
{
    match &parts.children {
        Some((ns, _)) => if ns.len() <= max_nodes {
            max_nodes - ns.len()
        } else {
            0
        },
        None => max_nodes,
    }
}

/// The contextual graph is truncated when children were clipped, or the
/// same-level walk (`same_level_nodes` nodes found) filled its budget
/// `remaining` while the focus has more callers and callees (`fan`) than
/// that budget.
pub fn contextual_graph_truncated(
    children_clipped: bool,
    same_level_nodes: usize,
    remaining: usize,
    fan: usize,
) -> (r: bool)
    ensures
        r == (children_clipped || (same_level_nodes > 0 && same_level_nodes >= remaining && fan
            > remaining)),
{
    children_clipped || (same_level_nodes > 0 && same_level_nodes >= remaining && fan > remaining)
}


// ---------------------------------------------------------------------------
// Quality issue summary
// ---------------------------------------------------------------------------

/// What the quality backend holds of one issue.
#[derive(Debug, Clone, PartialEq, Eq)]
pub struct QualityIssueFields {
    pub id: i64,
    pub rule_id: String,
    pub severity: String,
    pub category: String,
    pub file: String,
    pub line: u32,
    pub status: String,
    pub message: String,
}

/// The value of a summary property.
#[derive(Debug, Clone, PartialEq, Eq)]
pub enum PropertyValue {
    Int(i64),
    Text(String),
}

/// One property of an object summary.
#[derive(Debug, Clone, PartialEq, Eq)]
pub struct Property {
    pub key: String,
    pub value: PropertyValue,
    pub value_type: String,
    pub source: String,
}

/// The label, subtitle and properties of an issue's summary.
#[derive(Debug, Clone, PartialEq, Eq)]
pub struct IssueSummary {
    pub label: String,
    pub subtitle: String,
    pub properties: Vec<Property>,
}

pub enum PropertyValueV {
    Int(i64),
    Text(Seq<char>),
}

pub struct PropertyV {
    pub key: Seq<char>,
    pub value: PropertyValueV,
    pub value_type: Seq<char>,
    pub source: Seq<char>,
}

impl View for PropertyValue {
    type V = PropertyValueV;

    open spec fn view(&self) -> PropertyValueV {
        match self {
            PropertyValue::Int(n) => PropertyValueV::Int(*n),
            PropertyValue::Text(t) => PropertyValueV::Text(t@),
        }
    }
}

impl View for Property {
    type V = PropertyV;

    open spec fn view(&self) -> PropertyV {
        PropertyV {
            key: self.key@,
            value: self.value@,
            value_type: self.value_type@,
            source: self.source@,
        }
    }
}

pub struct IssueSummaryV {
    pub label: Seq<char>,
    pub subtitle: Seq<char>,
    pub properties: Seq<PropertyV>,
}

impl View for IssueSummary {
    type V = IssueSummaryV;

    open spec fn view(&self) -> IssueSummaryV {
        IssueSummaryV {
            label: self.label@,
            subtitle: self.subtitle@,
            properties: self.properties@.map_values(|p: Property| p@),
        }
    }
}

/// The decimal text of a signed integer.
pub open spec fn int_text(n: i64) -> Seq<char> {
    if n < 0 {
        "-"@ + decimal((0 - n) as nat)
    } else {
        decimal(n as nat)
    }
}

fn i64_to_string(n: i64) -> (r: String)
    ensures
        r@ == int_text(n),
{
    if n < 0 {
        let m: u64 = (0 - (n as i128)) as u64;
        let d = u64_to_string(m);
        concat("-", d.as_str())
    } else {
        u64_to_string(n as u64)
    }
}

/// A property read from the quality backend.
pub open spec fn quality_property(key: Seq<char>, value: PropertyValueV, value_type: Seq<char>) -> PropertyV {
    PropertyV { key, value, value_type, source: "QualityRepository"@ }
}

/// The seven properties of an issue, in order of their keys.
pub open spec fn issue_properties(i: QualityIssueFields) -> Seq<PropertyV> {
    seq![
        quality_property("category"@, PropertyValueV::Text(i.category@), "string"@),
        quality_property("file"@, PropertyValueV::Text(i.file@), "string"@),
        quality_property("id"@, PropertyValueV::Int(i.id), "i64"@),
        quality_property("line"@, PropertyValueV::Int(i.line as i64), "u32"@),
        quality_property("rule_id"@, PropertyValueV::Text(i.rule_id@), "string"@),
        quality_property("severity"@, PropertyValueV::Text(i.severity@), "string"@),
        quality_property("status"@, PropertyValueV::Text(i.status@), "string"@),
    ]
}

/// The properties of an issue come in order of their keys.
pub proof fn law_issue_properties_sorted(i: QualityIssueFields)
    ensures
        forall|a: int, b: int|
            0 <= a < b < 7 ==> text_le(
                #[trigger] issue_properties(i)[a].key,
                #[trigger] issue_properties(i)[b].key,
            ),
{
    reveal_strlit("category");
    reveal_strlit("file");
    reveal_strlit("id");
    reveal_strlit("line");
    reveal_strlit("rule_id");
    reveal_strlit("severity");
    reveal_strlit("status");
    let p = issue_properties(i);
    reveal_with_fuel(text_le, 3);
    assert("severity"@.drop_first()[0] == 'e' && "status"@.drop_first()[0] == 't');
    assert(text_le("severity"@, "status"@));
    assert forall|a: int, b: int| 0 <= a < b < 7 implies text_le(
        #[trigger] p[a].key,
        #[trigger] p[b].key,
    ) by {
        if a == 5 && b == 6 {
        } else {
            assert(p[a].key[0] != p[b].key[0]);
        }
    }
}

/// The summary of issue `id`.
pub open spec fn issue_summary_spec(id: i64, issue: Option<QualityIssueFields>, backend_wired: bool) -> IssueSummaryV {
    match issue {
        Some(i) => IssueSummaryV {
            label: i.rule_id@ + ": "@ + i.message@,
            subtitle: i.severity@ + " at "@ + i.file@ + ":"@ + decimal(i.line as nat),
            properties: issue_properties(i),
        },
        None => IssueSummaryV {
            label: "Issue #"@ + int_text(id),
            subtitle: if backend_wired {
                "Issue not found"@
            } else {
                "No quality backend wired"@
            },
            properties: Seq::empty(),
        },
    }
}

fn text_property(key: &str, value: &String) -> (r: Property)
    ensures
        r@ == quality_property(key@, PropertyValueV::Text(value@), "string"@),
{
    Property {
        key: owned(key),
        value: PropertyValue::Text(value.clone()),
        value_type: owned("string"),
        source: owned("QualityRepository"),
    }
}

fn int_property(key: &str, value: i64, value_type: &str) -> (r: Property)
    ensures
        r@ == quality_property(key@, PropertyValueV::Int(value), value_type@),
{
    Property {
        key: owned(key),
        value: PropertyValue::Int(value),
        value_type: owned(value_type),
        source: owned("QualityRepository"),
    }
}

/// The summary of quality issue `id`: with the issue, its rule and
/// message as label, `<severity> at <file>:<line>` as subtitle, and its
/// seven fields as properties in order of their keys; without it,
/// `Issue #<id>` with a subtitle that says whether a quality backend was
/// there to ask, and no properties.
pub fn quality_issue_summary(id: i64, issue: Option<QualityIssueFields>, backend_wired: bool) -> (r: IssueSummary)
    ensures
        r@ == issue_summary_spec(id, issue, backend_wired),
{
    match issue {
        Some(i) => {
            let mut label = concat(i.rule_id.as_str(), ": ");
            append(&mut label, i.message.as_str());
            let mut subtitle = concat(i.severity.as_str(), " at ");
            append(&mut subtitle, i.file.as_str());
            append(&mut subtitle, ":");
            let line = u64_to_string(i.line as u64);
            append(&mut subtitle, line.as_str());
            let mut properties: Vec<Property> = Vec::new();
            properties.push(text_property("category", &i.category));
            properties.push(text_property("file", &i.file));
            properties.push(int_property("id", i.id, "i64"));
            properties.push(int_property("line", i.line as i64, "u32"));
            properties.push(text_property("rule_id", &i.rule_id));
            properties.push(text_property("severity", &i.severity));
            properties.push(text_property("status", &i.status));
            let r = IssueSummary { label, subtitle, properties };
            assert(r@.properties =~= issue_properties(i));
            r
        },
        None => {
            let n = i64_to_string(id);
            let label = concat("Issue #", n.as_str());
            let subtitle = if backend_wired {
                owned("Issue not found")
            } else {
                owned("No quality backend wired")
            };
            let r = IssueSummary { label, subtitle, properties: Vec::new() };
            assert(r@.properties =~= Seq::<PropertyV>::empty());
            r
        },
    }
}

} // verus!
