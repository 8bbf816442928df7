//! Kinds of inspectable objects, of views and of renderers.
//!
//! The wire name of an object kind is its snake_case name (the value of
//! the `view_specs.applies_to` column).

use vstd::prelude::*;
use crate::text::{chars_of, is_lit};

verus! {

/// A kind of object the explorer can inspect.
#[derive(Debug, Clone, Copy, PartialEq, Eq, Hash, Structural)]
pub enum InspectableObjectType {
    Workspace,
    Scope,
    Symbol,
    File,
    Module,
    Evidence,
    DecisionArtifact,
    QualityIssue,
    Rule,
    SavedExploration,
    Investigation,
    Doc,
    Adr,
}

/// The snake_case wire name of an object kind.
pub open spec fn object_type_name(t: InspectableObjectType) -> Seq<char> {
    match t {
        InspectableObjectType::Workspace => "workspace"@,
        InspectableObjectType::Scope => "scope"@,
        InspectableObjectType::Symbol => "symbol"@,
        InspectableObjectType::File => "file"@,
        InspectableObjectType::Module => "module"@,
        InspectableObjectType::Evidence => "evidence"@,
        InspectableObjectType::DecisionArtifact => "decision_artifact"@,
        InspectableObjectType::QualityIssue => "quality_issue"@,
        InspectableObjectType::Rule => "rule"@,
        InspectableObjectType::SavedExploration => "saved_exploration"@,
        InspectableObjectType::Investigation => "investigation"@,
        InspectableObjectType::Doc => "doc"@,
        InspectableObjectType::Adr => "adr"@,
    }
}

/// The object kind whose wire name is `s`, if any.
pub open spec fn object_type_of(s: Seq<char>) -> Option<InspectableObjectType> {
    if s == "workspace"@ {
        Some(InspectableObjectType::Workspace)
    } else if s == "scope"@ {
        Some(InspectableObjectType::Scope)
    } else if s == "symbol"@ {
        Some(InspectableObjectType::Symbol)
    } else if s == "file"@ {
        Some(InspectableObjectType::File)
    } else if s == "module"@ {
        Some(InspectableObjectType::Module)
    } else if s == "evidence"@ {
        Some(InspectableObjectType::Evidence)
    } else if s == "decision_artifact"@ {
        Some(InspectableObjectType::DecisionArtifact)
    } else if s == "quality_issue"@ {
        Some(InspectableObjectType::QualityIssue)
    } else if s == "rule"@ {
        Some(InspectableObjectType::Rule)
    } else if s == "saved_exploration"@ {
        Some(InspectableObjectType::SavedExploration)
    } else if s == "investigation"@ {
        Some(InspectableObjectType::Investigation)
    } else if s == "doc"@ {
        Some(InspectableObjectType::Doc)
    } else if s == "adr"@ {
        Some(InspectableObjectType::Adr)
    } else {
        None
    }
}

/// The wire name of an object kind.
pub fn object_type_wire_name(t: InspectableObjectType) -> (r: &'static str)
    ensures
        r@ == object_type_name(t),
{
    match t {
        InspectableObjectType::Workspace => "workspace",
        InspectableObjectType::Scope => "scope",
        InspectableObjectType::Symbol => "symbol",
        InspectableObjectType::File => "file",
        InspectableObjectType::Module => "module",
        InspectableObjectType::Evidence => "evidence",
        InspectableObjectType::DecisionArtifact => "decision_artifact",
        InspectableObjectType::QualityIssue => "quality_issue",
        InspectableObjectType::Rule => "rule",
        InspectableObjectType::SavedExploration => "saved_exploration",
        InspectableObjectType::Investigation => "investigation",
        InspectableObjectType::Doc => "doc",
        InspectableObjectType::Adr => "adr",
    }
}

/// The object kind named `s`, if any.
pub fn object_type_from_wire(s: &str) -> (r: Option<InspectableObjectType>)
    ensures
        r == object_type_of(s@),
{
    let w = chars_of(s);
    if is_lit(&w, "workspace") {
        Some(InspectableObjectType::Workspace)
    } else if is_lit(&w, "scope") {
        Some(InspectableObjectType::Scope)
    } else if is_lit(&w, "symbol") {
        Some(InspectableObjectType::Symbol)
    } else if is_lit(&w, "file") {
        Some(InspectableObjectType::File)
    } else if is_lit(&w, "module") {
        Some(InspectableObjectType::Module)
    } else if is_lit(&w, "evidence") {
        Some(InspectableObjectType::Evidence)
    } else if is_lit(&w, "decision_artifact") {
        Some(InspectableObjectType::DecisionArtifact)
    } else if is_lit(&w, "quality_issue") {
        Some(InspectableObjectType::QualityIssue)
    } else if is_lit(&w, "rule") {
        Some(InspectableObjectType::Rule)
    } else if is_lit(&w, "saved_exploration") {
        Some(InspectableObjectType::SavedExploration)
    } else if is_lit(&w, "investigation") {
        Some(InspectableObjectType::Investigation)
    } else if is_lit(&w, "doc") {
        Some(InspectableObjectType::Doc)
    } else if is_lit(&w, "adr") {
        Some(InspectableObjectType::Adr)
    } else {
        None
    }
}

/// Reading back the wire name of a kind gives the kind.
pub proof fn law_object_type_wire_roundtrip(t: InspectableObjectType)
    ensures
        object_type_of(object_type_name(t)) == Some(t),
{
    reveal_strlit("workspace");
    reveal_strlit("scope");
    reveal_strlit("symbol");
    reveal_strlit("file");
    reveal_strlit("module");
    reveal_strlit("evidence");
    reveal_strlit("decision_artifact");
    reveal_strlit("quality_issue");
    reveal_strlit("rule");
    reveal_strlit("saved_exploration");
    reveal_strlit("investigation");
    reveal_strlit("doc");
    reveal_strlit("adr");
    let s = object_type_name(t);
    match t {
        InspectableObjectType::Workspace => {
        },
        InspectableObjectType::Scope => {
            assert(s != "workspace"@) by {
                assert(s.len() != "workspace"@.len());
            }
        },
        InspectableObjectType::Symbol => {
            assert(s != "workspace"@) by {
                assert(s.len() != "workspace"@.len());
            }
            assert(s != "scope"@) by {
                assert(s.len() != "scope"@.len());
            }
        },
        InspectableObjectType::File => {
            assert(s != "workspace"@) by {
                assert(s.len() != "workspace"@.len());
            }
            assert(s != "scope"@) by {
                assert(s.len() != "scope"@.len());
            }
            assert(s != "symbol"@) by {
                assert(s.len() != "symbol"@.len());
            }
        },
        InspectableObjectType::Module => {
            assert(s != "workspace"@) by {
                assert(s.len() != "workspace"@.len());
            }
            assert(s != "scope"@) by {
                assert(s.len() != "scope"@.len());
            }
            assert(s != "symbol"@) by {
                assert(s[0] != "symbol"@[0]);
            }
            assert(s != "file"@) by {
                assert(s.len() != "file"@.len());
            }
        },
        InspectableObjectType::Evidence => {
            assert(s != "workspace"@) by {
                assert(s.len() != "workspace"@.len());
            }
            assert(s != "scope"@) by {
                assert(s.len() != "scope"@.len());
            }
            assert(s != "symbol"@) by {
                assert(s.len() != "symbol"@.len());
            }
            assert(s != "file"@) by {
                assert(s.len() != "file"@.len());
            }
            assert(s != "module"@) by {
                assert(s.len() != "module"@.len());
            }
        },
        InspectableObjectType::DecisionArtifact => {
            assert(s != "workspace"@) by {
                assert(s.len() != "workspace"@.len());
            }
            assert(s != "scope"@) by {
                assert(s.len() != "scope"@.len());
            }
            assert(s != "symbol"@) by {
                assert(s.len() != "symbol"@.len());
            }
            assert(s != "file"@) by {
                assert(s.len() != "file"@.len());
            }
            assert(s != "module"@) by {
                assert(s.len() != "module"@.len());
            }
            assert(s != "evidence"@) by {
                assert(s.len() != "evidence"@.len());
            }
        },
        InspectableObjectType::QualityIssue => {
            assert(s != "workspace"@) by {
                assert(s.len() != "workspace"@.len());
            }
            assert(s != "scope"@) by {
                assert(s.len() != "scope"@.len());
            }
            assert(s != "symbol"@) by {
                assert(s.len() != "symbol"@.len());
            }
            assert(s != "file"@) by {
                assert(s.len() != "file"@.len());
            }
            assert(s != "module"@) by {
                assert(s.len() != "module"@.len());
            }
            assert(s != "evidence"@) by {
                assert(s.len() != "evidence"@.len());
            }
            assert(s != "decision_artifact"@) by {
                assert(s.len() != "decision_artifact"@.len());
            }
        },
        InspectableObjectType::Rule => {
            assert(s != "workspace"@) by {
                assert(s.len() != "workspace"@.len());
            }
            assert(s != "scope"@) by {
                assert(s.len() != "scope"@.len());
            }
            assert(s != "symbol"@) by {
                assert(s.len() != "symbol"@.len());
            }
            assert(s != "file"@) by {
                assert(s[0] != "file"@[0]);
            }
            assert(s != "module"@) by {
                assert(s.len() != "module"@.len());
            }
            assert(s != "evidence"@) by {
                assert(s.len() != "evidence"@.len());
            }
            assert(s != "decision_artifact"@) by {
                assert(s.len() != "decision_artifact"@.len());
            }
            assert(s != "quality_issue"@) by {
                assert(s.len() != "quality_issue"@.len());
            }
        },
        InspectableObjectType::SavedExploration => {
            assert(s != "workspace"@) by {
                assert(s.len() != "workspace"@.len());
            }
            assert(s != "scope"@) by {
                assert(s.len() != "scope"@.len());
            }
            assert(s != "symbol"@) by {
                assert(s.len() != "symbol"@.len());
            }
            assert(s != "file"@) by {
                assert(s.len() != "file"@.len());
            }
            assert(s != "module"@) by {
                assert(s.len() != "module"@.len());
            }
            assert(s != "evidence"@) by {
                assert(s.len() != "evidence"@.len());
            }
            assert(s != "decision_artifact"@) by {
                assert(s[0] != "decision_artifact"@[0]);
            }
            assert(s != "quality_issue"@) by {
                assert(s.len() != "quality_issue"@.len());
            }
            assert(s != "rule"@) by {
                assert(s.len() != "rule"@.len());
            }
        },
        InspectableObjectType::Investigation => {
            assert(s != "workspace"@) by {
                assert(s.len() != "workspace"@.len());
            }
            assert(s != "scope"@) by {
                assert(s.len() != "scope"@.len());
            }
            assert(s != "symbol"@) by {
                assert(s.len() != "symbol"@.len());
            }
            assert(s != "file"@) by {
                assert(s.len() != "file"@.len());
            }
            assert(s != "module"@) by {
                assert(s.len() != "module"@.len());
            }
            assert(s != "evidence"@) by {
                assert(s.len() != "evidence"@.len());
            }
            assert(s != "decision_artifact"@) by {
                assert(s.len() != "decision_artifact"@.len());
            }
            assert(s != "quality_issue"@) by {
                assert(s[0] != "quality_issue"@[0]);
            }
            assert(s != "rule"@) by {
                assert(s.len() != "rule"@.len());
            }
            assert(s != "saved_exploration"@) by {
                assert(s.len() != "saved_exploration"@.len());
            }
        },
        InspectableObjectType::Doc => {
            assert(s != "workspace"@) by {
                assert(s.len() != "workspace"@.len());
            }
            assert(s != "scope"@) by {
                assert(s.len() != "scope"@.len());
            }
            assert(s != "symbol"@) by {
                assert(s.len() != "symbol"@.len());
            }
            assert(s != "file"@) by {
                assert(s.len() != "file"@.len());
            }
            assert(s != "module"@) by {
                assert(s.len() != "module"@.len());
            }
            assert(s != "evidence"@) by {
                assert(s.len() != "evidence"@.len());
            }
            assert(s != "decision_artifact"@) by {
                assert(s.len() != "decision_artifact"@.len());
            }
            assert(s != "quality_issue"@) by {
                assert(s.len() != "quality_issue"@.len());
            }
            assert(s != "rule"@) by {
                assert(s.len() != "rule"@.len());
            }
            assert(s != "saved_exploration"@) by {
                assert(s.len() != "saved_exploration"@.len());
            }
            assert(s != "investigation"@) by {
                assert(s.len() != "investigation"@.len());
            }
        },
        InspectableObjectType::Adr => {
            assert(s != "workspace"@) by {
                assert(s.len() != "workspace"@.len());
            }
            assert(s != "scope"@) by {
                assert(s.len() != "scope"@.len());
            }
            assert(s != "symbol"@) by {
                assert(s.len() != "symbol"@.len());
            }
            assert(s != "file"@) by {
                assert(s.len() != "file"@.len());
            }
            assert(s != "module"@) by {
                assert(s.len() != "module"@.len());
            }
            assert(s != "evidence"@) by {
                assert(s.len() != "evidence"@.len());
            }
            assert(s != "decision_artifact"@) by {
                assert(s.len() != "decision_artifact"@.len());
            }
            assert(s != "quality_issue"@) by {
                assert(s.len() != "quality_issue"@.len());
            }
            assert(s != "rule"@) by {
                assert(s.len() != "rule"@.len());
            }
            assert(s != "saved_exploration"@) by {
                assert(s.len() != "saved_exploration"@.len());
            }
            assert(s != "investigation"@) by {
                assert(s.len() != "investigation"@.len());
            }
            assert(s != "doc"@) by {
                assert(s[0] != "doc"@[0]);
            }
        },
    }
}

/// A name that reads as a kind is that kind's wire name.
pub proof fn law_object_type_wire_exact(s: Seq<char>)
    ensures
        object_type_of(s) matches Some(t) ==> object_type_name(t) == s,
{
}

/// How a view is rendered.
#[derive(Debug, Clone, PartialEq, Eq)]
pub enum RendererKind {
    Graph,
    Table,
    Tree,
    Code,
    Markdown,
    VegaLite,
    Json,
    Composite,
    Custom(String),
}

pub enum RendererKindV {
    Graph,
    Table,
    Tree,
    Code,
    Markdown,
    VegaLite,
    Json,
    Composite,
    Custom(Seq<char>),
}

impl View for RendererKind {
    type V = RendererKindV;

    open spec fn view(&self) -> RendererKindV {
        match self {
            RendererKind::Graph => RendererKindV::Graph,
            RendererKind::Table => RendererKindV::Table,
            RendererKind::Tree => RendererKindV::Tree,
            RendererKind::Code => RendererKindV::Code,
            RendererKind::Markdown => RendererKindV::Markdown,
            RendererKind::VegaLite => RendererKindV::VegaLite,
            RendererKind::Json => RendererKindV::Json,
            RendererKind::Composite => RendererKindV::Composite,
            RendererKind::Custom(s) => RendererKindV::Custom(s@),
        }
    }
}

/// The semantic intent of a view.
#[derive(Debug, PartialEq, Eq, Hash)]
pub enum ViewKind {
    VerticalSlice,
    CallGraph,
    SeamMap,
    DependencyGraph,
    SourceView,
    DataFlow,
    ImpactRadius,
    DiffView,
    C4Context,
    C4Container,
    C4Component,
    C4Code,
    QualityHotspots,
    EvidenceView,
    DecisionGraph,
    DecisionSupportPack,
    ArchitectureRationale,
    ArchitectureDrift,
    BoundaryMap,
    DependencyPressure,
    ChangeImpactStory,
    OwnershipMap,
    RiskMap,
    DecisionTrace,
    TestSlice,
    DebugSlice,
    RefactorPlan,
    CallersAndImplementors,
    UsageExamples,
    ApiSurface,
    DeadCodeCandidates,
    SemanticSearchResults,
    DocCodeAlignment,
    ExampleObject,
    ComposedNarrative,
    ProjectDiary,
    ConceptMap,
    EvidencePack,
    Custom(String),
}

impl Clone for ViewKind {
    fn clone(&self) -> (r: Self)
        ensures
            r == *self,
    {
        match self {
            ViewKind::VerticalSlice => ViewKind::VerticalSlice,
            ViewKind::CallGraph => ViewKind::CallGraph,
            ViewKind::SeamMap => ViewKind::SeamMap,
            ViewKind::DependencyGraph => ViewKind::DependencyGraph,
            ViewKind::SourceView => ViewKind::SourceView,
            ViewKind::DataFlow => ViewKind::DataFlow,
            ViewKind::ImpactRadius => ViewKind::ImpactRadius,
            ViewKind::DiffView => ViewKind::DiffView,
            ViewKind::C4Context => ViewKind::C4Context,
            ViewKind::C4Container => ViewKind::C4Container,
            ViewKind::C4Component => ViewKind::C4Component,
            ViewKind::C4Code => ViewKind::C4Code,
            ViewKind::QualityHotspots => ViewKind::QualityHotspots,
            ViewKind::EvidenceView => ViewKind::EvidenceView,
            ViewKind::DecisionGraph => ViewKind::DecisionGraph,
            ViewKind::DecisionSupportPack => ViewKind::DecisionSupportPack,
            ViewKind::ArchitectureRationale => ViewKind::ArchitectureRationale,
            ViewKind::ArchitectureDrift => ViewKind::ArchitectureDrift,
            ViewKind::BoundaryMap => ViewKind::BoundaryMap,
            ViewKind::DependencyPressure => ViewKind::DependencyPressure,
            ViewKind::ChangeImpactStory => ViewKind::ChangeImpactStory,
            ViewKind::OwnershipMap => ViewKind::OwnershipMap,
            ViewKind::RiskMap => ViewKind::RiskMap,
            ViewKind::DecisionTrace => ViewKind::DecisionTrace,
            ViewKind::TestSlice => ViewKind::TestSlice,
            ViewKind::DebugSlice => ViewKind::DebugSlice,
            ViewKind::RefactorPlan => ViewKind::RefactorPlan,
            ViewKind::CallersAndImplementors => ViewKind::CallersAndImplementors,
            ViewKind::UsageExamples => ViewKind::UsageExamples,
            ViewKind::ApiSurface => ViewKind::ApiSurface,
            ViewKind::DeadCodeCandidates => ViewKind::DeadCodeCandidates,
            ViewKind::SemanticSearchResults => ViewKind::SemanticSearchResults,
            ViewKind::DocCodeAlignment => ViewKind::DocCodeAlignment,
            ViewKind::ExampleObject => ViewKind::ExampleObject,
            ViewKind::ComposedNarrative => ViewKind::ComposedNarrative,
            ViewKind::ProjectDiary => ViewKind::ProjectDiary,
            ViewKind::ConceptMap => ViewKind::ConceptMap,
            ViewKind::EvidencePack => ViewKind::EvidencePack,
            ViewKind::Custom(name) => ViewKind::Custom(name.clone()),
        }
    }
}

/// The catalog of built-in view kinds, in its stable order.
pub open spec fn known_kinds() -> Seq<ViewKind> {
    seq![
        ViewKind::VerticalSlice,
        ViewKind::CallGraph,
        ViewKind::SeamMap,
        ViewKind::DependencyGraph,
        ViewKind::SourceView,
        ViewKind::DataFlow,
        ViewKind::ImpactRadius,
        ViewKind::DiffView,
        ViewKind::C4Context,
        ViewKind::C4Container,
        ViewKind::C4Component,
        ViewKind::C4Code,
        ViewKind::QualityHotspots,
        ViewKind::EvidenceView,
        ViewKind::DecisionGraph,
        ViewKind::DecisionSupportPack,
        ViewKind::ArchitectureRationale,
        ViewKind::ArchitectureDrift,
        ViewKind::BoundaryMap,
        ViewKind::DependencyPressure,
        ViewKind::ChangeImpactStory,
        ViewKind::OwnershipMap,
        ViewKind::RiskMap,
        ViewKind::DecisionTrace,
        ViewKind::TestSlice,
        ViewKind::DebugSlice,
        ViewKind::RefactorPlan,
        ViewKind::CallersAndImplementors,
        ViewKind::UsageExamples,
        ViewKind::ApiSurface,
        ViewKind::DeadCodeCandidates,
        ViewKind::SemanticSearchResults,
        ViewKind::DocCodeAlignment,
        ViewKind::ExampleObject,
        ViewKind::ComposedNarrative,
        ViewKind::ProjectDiary,
        ViewKind::ConceptMap,
        ViewKind::EvidencePack,
    ]
}

} // verus!
