use cognicode_explorer::registry::first_executor_clash;
use cognicode_explorer::registry::{
    RegisteredView, ViewDescriptorDto, ViewDescriptorProvider, ViewRegistry, ViewSpecStoreError,
};
use cognicode_explorer::view_spec_payload::{
    inspectable_to_wire, renderer_kind_from_wire, wire_to_inspectable,
};
use cognicode_explorer::views::{InspectableObjectType, RendererKind, ViewKind};
use cognicode_explorer::views::InspectableObjectType::{Doc, Evidence, Symbol};

#[test]
fn view_descriptor_provider_is_object_safe() {
    fn _check(_: &dyn ViewDescriptorProvider) {}
}

#[test]
fn view_descriptor_from_provider_extracts_metadata() {
    struct MockProvider;
    impl ViewDescriptorProvider for MockProvider {
        fn id(&self) -> &'static str {
            "test-view"
        }
        fn title(&self) -> &'static str {
            "Test View"
        }
        fn applies_to(&self) -> &'static [InspectableObjectType] {
            &[InspectableObjectType::Symbol]
        }
        fn view_kind(&self) -> ViewKind {
            ViewKind::CallGraph
        }
    }
    let provider = MockProvider;
    let descriptor = ViewDescriptorDto::from_provider(&provider as &dyn ViewDescriptorProvider);
    assert_eq!(descriptor.id, "test-view");
    assert_eq!(descriptor.title, "Test View");
    assert_eq!(descriptor.view_kind, ViewKind::CallGraph);
    assert!(descriptor.is_builtin);
    assert!(descriptor.source.is_none());
    assert!(provider.is_builtin());
    assert_eq!(provider.renderer_kind(), RendererKind::Json);
}

#[test]
fn known_view_kinds_returns_all_view_kind_variants() {
    let registry = ViewRegistry::new();
    let kinds = registry.known_view_kinds();
    assert!(!kinds.is_empty());
    assert!(kinds.contains(&ViewKind::CallGraph));
    assert!(kinds.contains(&ViewKind::SourceView));
    assert!(kinds.contains(&ViewKind::QualityHotspots));
    assert!(kinds.contains(&ViewKind::DecisionSupportPack));
}

#[test]
fn known_view_kinds_are_distinct_and_complete() {
    let kinds = ViewRegistry::new().known_view_kinds();
    assert_eq!(kinds.len(), 38);
    for (i, k) in kinds.iter().enumerate() {
        assert!(!kinds[i + 1..].contains(k), "{k:?} listed twice");
        assert!(!matches!(k, ViewKind::Custom(_)));
    }
    assert_eq!(kinds[0], ViewKind::VerticalSlice);
    assert_eq!(kinds[37], ViewKind::EvidencePack);
    assert_eq!(ViewRegistry::new().known_view_kinds(), kinds);
}

#[test]
fn view_spec_store_error_display() {
    let err = ViewSpecStoreError::Store("connection failed".into());
    assert!(err.message().contains("connection failed"));

    let err = ViewSpecStoreError::Conflict("duplicate title".into());
    assert!(err.message().contains("duplicate title"));

    let err = ViewSpecStoreError::NotFound("missing-id".into());
    assert!(err.message().contains("missing-id"));
}

#[test]
fn view_spec_store_error_exact_messages() {
    assert_eq!(ViewSpecStoreError::Store("x".into()).message(), "view_spec store error: x");
    assert_eq!(ViewSpecStoreError::Conflict("y".into()).message(), "view_spec conflict: y");
    assert_eq!(ViewSpecStoreError::NotFound("z".into()).message(), "view_spec not found: z");
}

#[test]
fn object_kind_wire_roundtrip() {
    let all = [
        InspectableObjectType::Workspace,
        InspectableObjectType::Scope,
        InspectableObjectType::Symbol,
        InspectableObjectType::File,
        InspectableObjectType::Module,
        InspectableObjectType::Evidence,
        InspectableObjectType::DecisionArtifact,
        InspectableObjectType::QualityIssue,
        InspectableObjectType::Rule,
        InspectableObjectType::SavedExploration,
        InspectableObjectType::Investigation,
        InspectableObjectType::Doc,
        InspectableObjectType::Adr,
    ];
    for k in all {
        assert_eq!(wire_to_inspectable(&inspectable_to_wire(k)), Some(k));
    }
    assert_eq!(inspectable_to_wire(InspectableObjectType::DecisionArtifact), "decision_artifact");
    assert_eq!(inspectable_to_wire(InspectableObjectType::QualityIssue), "quality_issue");
    assert_eq!(wire_to_inspectable("Symbol"), None);
    assert_eq!(wire_to_inspectable(""), None);
}

#[test]
fn renderer_wire_names() {
    assert_eq!(renderer_kind_from_wire("graph"), RendererKind::Graph);
    assert_eq!(renderer_kind_from_wire("vega_lite"), RendererKind::VegaLite);
    assert_eq!(renderer_kind_from_wire("composite"), RendererKind::Composite);
    assert_eq!(renderer_kind_from_wire("Graph"), RendererKind::Custom("Graph".into()));
    assert_eq!(renderer_kind_from_wire(""), RendererKind::Custom(String::new()));
}

fn registered(id: &str, title: &str, applies_to: &[InspectableObjectType], kind: ViewKind) -> RegisteredView {
    RegisteredView {
        id: id.to_string(),
        title: title.to_string(),
        applies_to: applies_to.to_vec(),
        view_kind: kind,
    }
}

fn sample_registry() -> ViewRegistry {
    let providers = vec![
        registered("source", "Source", &[Symbol], ViewKind::SourceView),
        registered("overview", "Overview", &[Symbol, Doc], ViewKind::VerticalSlice),
        registered("call-graph", "Call Graph", &[Symbol], ViewKind::CallGraph),
    ];
    let executors = vec![
        registered("overview", "Overview (executor)", &[Symbol], ViewKind::DataFlow),
        registered("doc-source", "Doc Source", &[Doc], ViewKind::DocCodeAlignment),
        registered("evidence-overview", "Evidence", &[Evidence], ViewKind::EvidenceView),
        registered("quality", "Quality", &[Symbol], ViewKind::QualityHotspots),
    ];
    ViewRegistry::with_views(providers, executors)
}

#[test]
fn get_returns_none_for_unknown_id() {
    let registry = ViewRegistry::new();
    let result = registry.get("this-does-not-exist");
    assert!(result.is_none());
}

#[test]
fn get_finds_a_registered_provider() {
    let registry = sample_registry();
    let overview = registry.get("overview").unwrap();
    assert_eq!(overview.title, "Overview");
    assert_eq!(overview.view_kind, ViewKind::VerticalSlice);
    assert!(overview.is_builtin);
    assert!(overview.source.is_none());
    // Executors are not providers.
    assert!(registry.get("doc-source").is_none());
}

#[test]
fn list_for_merges_sorted_by_id_without_duplicates() {
    let registry = sample_registry();
    let ids: Vec<String> =
        registry.list_for(InspectableObjectType::Symbol).into_iter().map(|d| d.id).collect();
    assert_eq!(ids, vec!["call-graph", "overview", "quality", "source"]);
    let symbol_views = registry.list_for(InspectableObjectType::Symbol);
    let overview = symbol_views.iter().find(|d| d.id == "overview").unwrap();
    assert_eq!(overview.title, "Overview");

    let doc: Vec<String> =
        registry.list_for(InspectableObjectType::Doc).into_iter().map(|d| d.id).collect();
    assert_eq!(doc, vec!["doc-source", "overview"]);

    let evidence = registry.list_for(InspectableObjectType::Evidence);
    assert_eq!(evidence.len(), 1);
    assert_eq!(evidence[0].id, "evidence-overview");
    assert!(evidence[0].is_builtin);
    assert!(registry.list_for(InspectableObjectType::Rule).is_empty());
    assert!(ViewRegistry::new().list_for(InspectableObjectType::Symbol).is_empty());
}

#[test]
fn list_for_lists_an_executor_when_the_provider_with_its_id_does_not_apply() {
    let registry = ViewRegistry::with_views(
        vec![registered("shared", "Provider", &[Doc], ViewKind::SourceView)],
        vec![registered("shared", "Executor", &[Symbol], ViewKind::CallGraph)],
    );
    let symbol = registry.list_for(Symbol);
    assert_eq!(symbol.len(), 1);
    assert_eq!(symbol[0].title, "Executor");
    let doc = registry.list_for(Doc);
    assert_eq!(doc.len(), 1);
    assert_eq!(doc[0].title, "Provider");
}

#[test]
fn executor_clash_is_found_in_registration_order() {
    let ok = vec![
        registered("a", "A", &[Symbol], ViewKind::CallGraph),
        registered("b", "B", &[Symbol], ViewKind::SourceView),
        registered("c", "C", &[Symbol], ViewKind::Custom("x".into())),
    ];
    assert_eq!(first_executor_clash(&ok), None);
    let same_kind = vec![
        registered("a", "A", &[Symbol], ViewKind::CallGraph),
        registered("b", "B", &[Symbol], ViewKind::SourceView),
        registered("c", "C", &[Symbol], ViewKind::CallGraph),
        registered("b", "D", &[Symbol], ViewKind::DataFlow),
    ];
    assert_eq!(first_executor_clash(&same_kind), Some((0, 2)));
    let same_id = vec![
        registered("a", "A", &[Symbol], ViewKind::Custom("x".into())),
        registered("a", "B", &[Symbol], ViewKind::Custom("y".into())),
    ];
    assert_eq!(first_executor_clash(&same_id), None);
    let same_custom = vec![
        registered("a", "A", &[Symbol], ViewKind::Custom("x".into())),
        registered("b", "B", &[Symbol], ViewKind::Custom("x".into())),
    ];
    assert_eq!(first_executor_clash(&same_custom), Some((0, 1)));
}

#[test]
fn known_view_kinds_is_stable() {
    let registry = ViewRegistry::new();
    let first = registry.known_view_kinds();
    let second = registry.known_view_kinds();
    assert_eq!(first, second);
}

#[test]
fn a_later_executor_replaces_an_earlier_one_with_its_id() {
    let registry = ViewRegistry::with_views(
        Vec::new(),
        vec![
            registered("x", "First", &[Symbol], ViewKind::CallGraph),
            registered("y", "Other", &[Symbol], ViewKind::DataFlow),
            registered("x", "Second", &[Symbol], ViewKind::SourceView),
        ],
    );
    let views = registry.list_for(Symbol);
    let titles: Vec<&str> = views.iter().map(|d| d.title.as_str()).collect();
    assert_eq!(titles, vec!["Second", "Other"]);
}
