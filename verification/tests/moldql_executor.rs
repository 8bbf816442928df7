use cognicode_explorer::moldql::ast::{Direction, ExploreQuery, MoldQLQuery};
use cognicode_explorer::moldql::executor::{
    render_condition, render_explore, render_find, MoldQLItem, MoldQLResult,
};
use cognicode_explorer::moldql::parser::parse;
use cognicode_explorer::views::InspectableObjectType;

fn find(q: &str) -> String {
    match parse(q) {
        Ok(MoldQLQuery::Find(f)) => render_find(&f),
        other => panic!("expected FIND, got {other:?}"),
    }
}

#[test]
fn render_find_canonical_forms() {
    assert_eq!(find("FIND symbols"), "FIND symbols");
    assert_eq!(
        find("FIND files IN SCOPE src/api WHERE line_count > 100 AND name ~ \"mod\" APPLY architecture"),
        "FIND files IN SCOPE src/api WHERE line_count > 100 AND name ~ \"mod\" APPLY architecture"
    );
    assert_eq!(find("FIND scopes WHERE quality.critical >= 2"), "FIND scopes WHERE quality.critical >= 2");
}

#[test]
fn render_find_is_a_fixed_point_of_parsing() {
    let once = find("FIND symbols IN SCOPE src WHERE fan_in >= 3 AND kind == \"function\"");
    assert_eq!(find(&once), once);
}

#[test]
fn render_condition_quotes_strings_only() {
    let f = match parse("FIND symbols WHERE name == \"main\" AND line < 10") {
        Ok(MoldQLQuery::Find(f)) => f,
        other => panic!("{other:?}"),
    };
    assert_eq!(render_condition(&f.conditions[0]), "name == \"main\"");
    assert_eq!(render_condition(&f.conditions[1]), "line < 10");
}

#[test]
fn render_explore_canonical_form() {
    let e = ExploreQuery {
        object_ref: "symbol:src/main.rs:main:1".into(),
        direction: Direction::Callees,
        depth: 3,
    };
    assert_eq!(render_explore(&e), "EXPLORE symbol:src/main.rs:main:1 THROUGH callees DEPTH 3");
}

#[test]
fn result_total_counts_items() {
    let items = vec![
        MoldQLItem {
            object_id: "file:src/a.rs".into(),
            object_type: InspectableObjectType::File,
            label: "src/a.rs".into(),
            detail: None,
        },
        MoldQLItem {
            object_id: "file:src/b.rs".into(),
            object_type: InspectableObjectType::File,
            label: "src/b.rs".into(),
            detail: Some("architecture".into()),
        },
    ];
    let r = MoldQLResult::of("FIND files".into(), items);
    assert_eq!(r.total, 2);
    assert_eq!(r.items[1].detail.as_deref(), Some("architecture"));
    assert_eq!(r.query, "FIND files");
}
