use cognicode_explorer::service::{
    assemble_contextual_graph, check_contextual_graph_request, contextual_graph_truncated,
    lens_to_view_id, quality_issue_summary, render_replay_markdown_unknown, same_level_budget,
    style_class_for_kind, validate_view_inputs, view_focus_mvp_id, GraphNodeData, PropertyValue,
    QualityIssueFields,
};

fn check(
    workspace_id: &str,
    owner: &str,
    name: &str,
    description: Option<&str>,
    max_depth: i32,
) -> Result<(), String> {
    validate_view_inputs(workspace_id, owner, name, description, "symbol", "callgraph", "a.rs:f:1", max_depth)
        .map_err(|e| e.message)
}

#[test]
fn view_inputs_accepted() {
    assert_eq!(check("ws", "me", "My view", Some("about it"), 2), Ok(()));
    assert_eq!(check("ws", "me", &"n".repeat(200), Some(&"d".repeat(2000)), 0), Ok(()));
    assert_eq!(check("ws", "me", "é".repeat(200).as_str(), None, 0), Ok(()));
}

#[test]
fn view_inputs_refused_with_the_first_problem() {
    assert_eq!(check("", "", "", None, -1), Err("workspace_id is required".to_string()));
    assert_eq!(check("ws", "", "x", None, 0), Err("owner is required".to_string()));
    assert_eq!(check("ws", "me", "", None, 0), Err("name is required".to_string()));
    assert_eq!(
        check("ws", "me", &"n".repeat(201), None, 0),
        Err("name must be at most 200 characters".to_string())
    );
    assert_eq!(check("ws", "me", "x", None, -1), Err("max_depth must be >= 0".to_string()));
    assert_eq!(
        check("ws", "me", "x", Some(&"d".repeat(2001)), 0),
        Err("description must be at most 2000 characters".to_string())
    );
    assert_eq!(
        validate_view_inputs("ws", "me", "x", None, "", "l", "f", 0).map_err(|e| e.message),
        Err("level is required".to_string())
    );
    assert_eq!(
        validate_view_inputs("ws", "me", "x", None, "symbol", "", "f", 0).map_err(|e| e.message),
        Err("lens is required".to_string())
    );
    assert_eq!(
        validate_view_inputs("ws", "me", "x", None, "symbol", "l", "", 0).map_err(|e| e.message),
        Err("focus_node is required".to_string())
    );
}

#[test]
fn style_classes() {
    assert_eq!(style_class_for_kind("function"), "function");
    assert_eq!(style_class_for_kind("method"), "function");
    assert_eq!(style_class_for_kind("fn"), "function");
    assert_eq!(style_class_for_kind("module"), "module");
    assert_eq!(style_class_for_kind("crate"), "module");
    assert_eq!(style_class_for_kind("trait"), "module");
    assert_eq!(style_class_for_kind("file"), "module");
    assert_eq!(style_class_for_kind("external"), "external");
    assert_eq!(style_class_for_kind("struct"), "function");
}

#[test]
fn named_view_reopens_by_level() {
    assert_eq!(view_focus_mvp_id("file", "src/a.rs"), "file:src/a.rs");
    assert_eq!(view_focus_mvp_id("scope", "src"), "scope:src");
    assert_eq!(view_focus_mvp_id("module", "src"), "scope:src");
    assert_eq!(view_focus_mvp_id("issue", "7"), "issue:7");
    assert_eq!(view_focus_mvp_id("quality", "7"), "issue:7");
    assert_eq!(view_focus_mvp_id("symbol", "a.rs:f:1"), "symbol:a.rs:f:1");
    assert_eq!(view_focus_mvp_id("anything", "a.rs:f:1"), "symbol:a.rs:f:1");
}

#[test]
fn lens_names_its_view() {
    assert_eq!(lens_to_view_id("callgraph"), "call-graph");
    assert_eq!(lens_to_view_id("call-graph"), "call-graph");
    assert_eq!(lens_to_view_id("overview"), "overview");
    assert_eq!(lens_to_view_id("future-lens"), "future-lens");
}

#[test]
fn unknown_exploration_report() {
    assert_eq!(
        render_replay_markdown_unknown("exp-1"),
        "# Symbol exploration report\n\nExploration: `exp-1`\n\n_No path data found in session store — the exploration may have been created in another process._\n"
    );
}

fn node(id: &str) -> GraphNodeData {
    GraphNodeData {
        id: id.to_string(),
        label: id.to_string(),
        kind: "function".to_string(),
        file: Some("src/a.rs".to_string()),
        line: Some(1),
        style_class: "function".to_string(),
    }
}

#[test]
fn contextual_graph_request_checks_in_order() {
    assert_eq!(check_contextual_graph_request("file", 1, 50), Ok(()));
    assert_eq!(check_contextual_graph_request("file", 2, 500), Ok(()));
    assert_eq!(
        check_contextual_graph_request("module", 0, 0),
        Err("level must be 'file' in Phase 1 (got: module)".to_string())
    );
    assert_eq!(
        check_contextual_graph_request("file", 3, 0),
        Err("depth must be in 1..=2 (got: 3)".to_string())
    );
    assert_eq!(
        check_contextual_graph_request("file", 1, 49),
        Err("max_nodes must be in 50..=500 (got: 49)".to_string())
    );
    assert_eq!(
        check_contextual_graph_request("file", 1, 501),
        Err("max_nodes must be in 50..=500 (got: 501)".to_string())
    );
}

#[test]
fn contextual_graph_orphan_has_no_parent_or_children() {
    let parts = assemble_contextual_graph("a.rs:f:1", "src/a.rs", Vec::new(), 50);
    assert!(parts.parent.is_none());
    assert!(parts.children.is_none());
    assert!(!parts.children_clipped);
    assert_eq!(same_level_budget(50, &parts), 50);
}

#[test]
fn contextual_graph_children_exclude_focus() {
    let parts =
        assemble_contextual_graph("f", "src/a.rs", vec![node("g"), node("f"), node("h")], 50);
    let (parent, edge) = parts.parent.as_ref().unwrap();
    assert_eq!(parent.id, "file:src/a.rs");
    assert_eq!(parent.label, "src/a.rs");
    assert_eq!(parent.kind, "file");
    assert_eq!(parent.style_class, "module");
    assert_eq!(edge.source, "f");
    assert_eq!(edge.target, "file:src/a.rs");
    assert_eq!(edge.relation, "lives_in");
    let (nodes, edges) = parts.children.as_ref().unwrap();
    let ids: Vec<&str> = nodes.iter().map(|n| n.id.as_str()).collect();
    assert_eq!(ids, vec!["g", "h"]);
    assert_eq!(edges.len(), 2);
    assert_eq!(edges[0].source, "g");
    assert_eq!(edges[0].target, "f");
    assert_eq!(edges[1].source, "h");
    assert!(!parts.children_clipped);
    assert_eq!(same_level_budget(50, &parts), 48);
}

#[test]
fn contextual_graph_clips_children_to_the_budget() {
    let siblings: Vec<GraphNodeData> = (0..60).map(|i| node(&format!("s{i}"))).collect();
    let parts = assemble_contextual_graph("focus", "src/a.rs", siblings, 50);
    let (nodes, edges) = parts.children.as_ref().unwrap();
    assert_eq!(nodes.len(), 50);
    assert_eq!(edges.len(), 50);
    assert_eq!(nodes[49].id, "s49");
    assert_eq!(edges[49].source, "s49");
    assert!(parts.children_clipped);
    assert_eq!(same_level_budget(50, &parts), 0);
    assert!(contextual_graph_truncated(parts.children_clipped, 0, 0, 0));
}

#[test]
fn contextual_graph_truncation_of_the_walk() {
    assert!(contextual_graph_truncated(false, 10, 10, 11));
    assert!(!contextual_graph_truncated(false, 10, 10, 10));
    assert!(!contextual_graph_truncated(false, 0, 0, 5));
    assert!(!contextual_graph_truncated(false, 9, 10, 20));
}

#[test]
fn quality_issue_summary_with_an_issue() {
    let issue = QualityIssueFields {
        id: 42,
        rule_id: "R1".into(),
        severity: "major".into(),
        category: "bug".into(),
        file: "src/a.rs".into(),
        line: 7,
        status: "open".into(),
        message: "unused value".into(),
    };
    let s = quality_issue_summary(42, Some(issue), true);
    assert_eq!(s.label, "R1: unused value");
    assert_eq!(s.subtitle, "major at src/a.rs:7");
    let keys: Vec<&str> = s.properties.iter().map(|p| p.key.as_str()).collect();
    assert_eq!(keys, vec!["category", "file", "id", "line", "rule_id", "severity", "status"]);
    assert_eq!(s.properties[2].value, PropertyValue::Int(42));
    assert_eq!(s.properties[3].value, PropertyValue::Int(7));
    assert_eq!(s.properties[3].value_type, "u32");
    assert_eq!(s.properties[0].value, PropertyValue::Text("bug".into()));
    assert!(s.properties.iter().all(|p| p.source == "QualityRepository"));
}

#[test]
fn quality_issue_summary_without_an_issue() {
    let s = quality_issue_summary(9, None, true);
    assert_eq!(s.label, "Issue #9");
    assert_eq!(s.subtitle, "Issue not found");
    assert!(s.properties.is_empty());
    let s = quality_issue_summary(-3, None, false);
    assert_eq!(s.label, "Issue #-3");
    assert_eq!(s.subtitle, "No quality backend wired");
    let s = quality_issue_summary(i64::MIN, None, false);
    assert_eq!(s.label, format!("Issue #{}", i64::MIN));
}
