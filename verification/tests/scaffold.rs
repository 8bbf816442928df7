use cognicode_explorer::scaffold::{
    Scaffold, ScaffoldLoadError, ScaffoldRegistry, ScaffoldValidationError,
};
use cognicode_explorer::views::InspectableObjectType;

fn scaffold(id: &str, object_type: &str) -> Scaffold {
    Scaffold {
        id: id.into(),
        object_type: object_type.into(),
        intent: "Show callers".into(),
        label: "Callers".into(),
        description: "Shows callers".into(),
        query_template: "calls from '{{object_id}}'".into(),
        view_kind: "call_graph".into(),
        renderer_kind: "graph".into(),
        applies_when: None,
        produces_relation_candidates: false,
    }
}

#[test]
fn scaffold_validate_ok() {
    let scaffold = Scaffold {
        id: "callers_and_callees".into(),
        object_type: "symbol".into(),
        intent: "Show callers".into(),
        label: "Callers".into(),
        description: "Shows callers".into(),
        query_template: "calls from '{{object_id}}'".into(),
        view_kind: "call_graph".into(),
        renderer_kind: "graph".into(),
        applies_when: None,
        produces_relation_candidates: false,
    };
    assert!(scaffold.validate().is_ok());
}

#[test]
fn scaffold_validate_empty_id() {
    let scaffold = Scaffold {
        id: "".into(),
        object_type: "symbol".into(),
        intent: "Show callers".into(),
        label: "Callers".into(),
        description: "Shows callers".into(),
        query_template: "calls from '{{object_id}}'".into(),
        view_kind: "call_graph".into(),
        renderer_kind: "graph".into(),
        applies_when: None,
        produces_relation_candidates: false,
    };
    assert!(matches!(scaffold.validate(), Err(ScaffoldValidationError::EmptyField("id"))));
}

#[test]
fn scaffold_validate_unknown_object_type() {
    let scaffold = Scaffold {
        id: "test".into(),
        object_type: "not_a_type".into(),
        intent: "Show callers".into(),
        label: "Callers".into(),
        description: "Shows callers".into(),
        query_template: "calls from '{{object_id}}'".into(),
        view_kind: "call_graph".into(),
        renderer_kind: "graph".into(),
        applies_when: None,
        produces_relation_candidates: false,
    };
    assert!(matches!(
        scaffold.validate(),
        Err(ScaffoldValidationError::UnknownObjectType(ot)) if ot == "not_a_type"
    ));
}

#[test]
fn scaffold_validate_intent_too_long() {
    let scaffold = Scaffold {
        id: "test".into(),
        object_type: "symbol".into(),
        intent: "x".repeat(600),
        label: "Callers".into(),
        description: "Shows callers".into(),
        query_template: "calls from '{{object_id}}'".into(),
        view_kind: "call_graph".into(),
        renderer_kind: "graph".into(),
        applies_when: None,
        produces_relation_candidates: false,
    };
    assert!(matches!(
        scaffold.validate(),
        Err(ScaffoldValidationError::FieldTooLong { field: "intent", .. })
    ));
}

#[test]
fn scaffold_parse_object_type() {
    assert_eq!(Scaffold::parse_object_type("symbol"), Some(InspectableObjectType::Symbol));
    assert_eq!(Scaffold::parse_object_type("file"), Some(InspectableObjectType::File));
    assert_eq!(Scaffold::parse_object_type("scope"), Some(InspectableObjectType::Scope));
    assert_eq!(
        Scaffold::parse_object_type("investigation"),
        Some(InspectableObjectType::Investigation)
    );
    assert_eq!(Scaffold::parse_object_type("unknown"), None);
}

#[test]
fn scaffold_object_type_accepts_doc_and_adr() {
    assert_eq!(Scaffold::parse_object_type("doc"), Some(InspectableObjectType::Doc));
    assert_eq!(Scaffold::parse_object_type("adr"), Some(InspectableObjectType::Adr));
    assert_eq!(
        Scaffold::parse_object_type("decision_artifact"),
        Some(InspectableObjectType::DecisionArtifact)
    );
}

#[test]
fn scaffold_validation_checks_in_order() {
    let mut s = scaffold("x", "symbol");
    s.label = "".into();
    s.query_template = "".into();
    assert!(matches!(s.validate(), Err(ScaffoldValidationError::EmptyField("label"))));
    let mut s = scaffold("x", "symbol");
    s.query_template = "q".repeat(4097);
    match s.validate() {
        Err(e @ ScaffoldValidationError::FieldTooLong { .. }) => {
            assert_eq!(e.message(), "scaffold `query_template` length 4097 exceeds maximum 4096")
        }
        other => panic!("expected FieldTooLong, got {other:?}"),
    }
    let mut s = scaffold("x", "symbol");
    s.description = "é".repeat(257);
    assert!(matches!(
        s.validate(),
        Err(ScaffoldValidationError::FieldTooLong { field: "description", len: 514, max: 512 })
    ));
    let mut s = scaffold("x", "symbol");
    s.intent = "x".repeat(512);
    assert!(s.validate().is_ok());
}

#[test]
fn scaffold_validation_messages() {
    assert_eq!(
        ScaffoldValidationError::EmptyField("id").message(),
        "scaffold has empty `id` field"
    );
    assert_eq!(
        ScaffoldValidationError::UnknownObjectType("nope".into()).message(),
        "scaffold has unknown `object_type`: `nope`"
    );
}

#[test]
fn registry_lookups() {
    let reg = ScaffoldRegistry::from_scaffolds(vec![
        scaffold("callers_and_callees", "symbol"),
        scaffold("file_outline", "file"),
        scaffold("symbol_quality", "symbol"),
    ])
    .expect("valid scaffolds");
    assert_eq!(reg.all().len(), 3);
    let symbol_scaffolds = reg.get_for_object_type("symbol");
    assert_eq!(symbol_scaffolds.len(), 2);
    assert!(symbol_scaffolds.iter().all(|s| s.object_type == "symbol"));
    assert_eq!(symbol_scaffolds[0].id, "callers_and_callees");
    assert_eq!(symbol_scaffolds[1].id, "symbol_quality");
    let callers = reg.get_by_id("callers_and_callees");
    assert!(callers.is_some());
    assert_eq!(callers.unwrap().id, "callers_and_callees");
    assert!(reg.get_by_id("nonexistent").is_none());
    assert!(reg.get_for_object_type("not_a_type").is_empty());
    assert!(reg.get_for_object_type("this_type_does_not_exist").is_empty());
}

#[test]
fn registry_refuses_bad_sets() {
    assert_eq!(
        ScaffoldRegistry::from_scaffolds(Vec::new()).err(),
        Some(ScaffoldLoadError::EmptyScaffolds)
    );
    assert_eq!(
        ScaffoldRegistry::from_scaffolds(vec![scaffold("a", "symbol"), scaffold("a", "file")]).err(),
        Some(ScaffoldLoadError::DuplicateId("a".into()))
    );
    match ScaffoldRegistry::from_scaffolds(vec![scaffold("a", "symbol"), scaffold("b", "nope")]) {
        Err(e) => assert_eq!(
            e.message(),
            "scaffold `b` failed validation: scaffold has unknown `object_type`: `nope`"
        ),
        Ok(_) => panic!("expected a validation error"),
    }
    assert_eq!(
        ScaffoldLoadError::DuplicateId("a".into()).message(),
        "duplicate scaffold id: `a`"
    );
    assert_eq!(
        ScaffoldLoadError::EmptyScaffolds.message(),
        "moldql-scaffolds.yaml contains no scaffolds"
    );
}

#[test]
fn registry_unknown_object_type_returns_empty() {
    let reg = ScaffoldRegistry::from_scaffolds(vec![
        scaffold("callers", "symbol"),
        scaffold("doc_outline", "doc"),
        scaffold("adr_context", "adr"),
    ])
    .expect("registry should load");
    let result = reg.get_for_object_type("this_type_does_not_exist");
    assert!(result.is_empty());
    assert_eq!(reg.get_for_object_type("doc").len(), 1);
    assert_eq!(reg.get_for_object_type("adr").len(), 1);
}
