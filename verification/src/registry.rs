//! Discovery of views: the descriptor every view exposes, the providers
//! that describe built-in views, the errors of the view-spec store, and
//! the catalog of known view kinds.

use vstd::prelude::*;
use crate::text::{owned, concat, chars_of, chars_eq, is_lit, text_le, text_le_exec, lemma_text_le_total, lemma_text_le_trans};
use crate::views::{InspectableObjectType, RendererKind, RendererKindV, ViewKind, known_kinds};

verus! {

/// Why a view-spec store operation failed.
#[derive(Debug, Clone, PartialEq, Eq)]
pub enum ViewSpecStoreError {
    /// The storage failed.
    Store(String),
    /// A spec with the same workspace, owner and title exists.
    Conflict(String),
    /// No such spec.
    NotFound(String),
}

pub enum StoreErrorV {
    Store(Seq<char>),
    Conflict(Seq<char>),
    NotFound(Seq<char>),
}

impl View for ViewSpecStoreError {
    type V = StoreErrorV;

    open spec fn view(&self) -> StoreErrorV {
        match self {
            ViewSpecStoreError::Store(m) => StoreErrorV::Store(m@),
            ViewSpecStoreError::Conflict(m) => StoreErrorV::Conflict(m@),
            ViewSpecStoreError::NotFound(m) => StoreErrorV::NotFound(m@),
        }
    }
}

impl ViewSpecStoreError {
    /// The error as text.
    pub fn message(&self) -> (r: String)
        ensures
            r@ == match self@ {
                StoreErrorV::Store(m) => "view_spec store error: "@ + m,
                StoreErrorV::Conflict(m) => "view_spec conflict: "@ + m,
                StoreErrorV::NotFound(m) => "view_spec not found: "@ + m,
            },
    {
        match self {
            ViewSpecStoreError::Store(m) => concat("view_spec store error: ", m.as_str()),
            ViewSpecStoreError::Conflict(m) => concat("view_spec conflict: ", m.as_str()),
            ViewSpecStoreError::NotFound(m) => concat("view_spec not found: ", m.as_str()),
        }
    }
}

/// What a listing says of one view.
#[derive(Debug, PartialEq, Eq)]
pub struct ViewDescriptorDto {
    pub id: String,
    pub title: String,
    pub view_kind: ViewKind,
    /// Compiled in (`true`) or defined at run time (`false`).
    pub is_builtin: bool,
    /// Where a runtime view comes from; `None` for built-ins.
    pub source: Option<String>,
}

pub struct DescriptorV {
    pub id: Seq<char>,
    pub title: Seq<char>,
    pub view_kind: ViewKind,
    pub is_builtin: bool,
    pub source: Option<Seq<char>>,
}

impl View for ViewDescriptorDto {
    type V = DescriptorV;

    open spec fn view(&self) -> DescriptorV {
        DescriptorV {
            id: self.id@,
            title: self.title@,
            view_kind: self.view_kind,
            is_builtin: self.is_builtin,
            source: match self.source {
                Some(t) => Some(t@),
                None => None,
            },
        }
    }
}

impl Clone for ViewDescriptorDto {
    fn clone(&self) -> (r: Self)
        ensures
            r@ == self@,
    {
        ViewDescriptorDto {
            id: self.id.clone(),
            title: self.title.clone(),
            view_kind: self.view_kind.clone(),
            is_builtin: self.is_builtin,
            source: self.source.clone(),
        }
    }
}

pub open spec fn descriptors_view(v: Seq<ViewDescriptorDto>) -> Seq<DescriptorV> {
    v.map_values(|d: ViewDescriptorDto| d@)
}

/// Descriptors in order of their ids.
pub open spec fn by_id(a: DescriptorV, b: DescriptorV) -> bool {
    text_le(a.id, b.id)
}

/// `s` is ordered by id.
pub open spec fn sorted_by_id(s: Seq<DescriptorV>) -> bool {
    forall|i: int, j: int| 0 <= i < j < s.len() ==> by_id(#[trigger] s[i], #[trigger] s[j])
}

/// What a registered view says of itself: the answers of its provider
/// or executor.
#[derive(Debug, Clone, PartialEq, Eq)]
pub struct RegisteredView {
    pub id: String,
    pub title: String,
    pub applies_to: Vec<InspectableObjectType>,
    pub view_kind: ViewKind,
}

pub struct RegisteredV {
    pub id: Seq<char>,
    pub title: Seq<char>,
    pub applies_to: Seq<InspectableObjectType>,
    pub view_kind: ViewKind,
}

impl View for RegisteredView {
    type V = RegisteredV;

    open spec fn view(&self) -> RegisteredV {
        RegisteredV {
            id: self.id@,
            title: self.title@,
            applies_to: self.applies_to@,
            view_kind: self.view_kind,
        }
    }
}

pub open spec fn registered_views(v: Seq<RegisteredView>) -> Seq<RegisteredV> {
    v.map_values(|r: RegisteredView| r@)
}

/// The descriptor a listing gives a registered view: built in, no source.
pub open spec fn listed(v: RegisteredV) -> DescriptorV {
    DescriptorV { id: v.id, title: v.title, view_kind: v.view_kind, is_builtin: true, source: None }
}

/// The registrations that apply to `t`, in order.
pub open spec fn applying(vs: Seq<RegisteredV>, t: InspectableObjectType) -> Seq<RegisteredV> {
    vs.filter(|v: RegisteredV| v.applies_to.contains(t))
}

pub open spec fn ids_of(vs: Seq<RegisteredV>) -> Seq<Seq<char>> {
    vs.map_values(|v: RegisteredV| v.id)
}

/// The executors that apply to `t` and whose id no provider in `shown`
/// has.
pub open spec fn extra_executors(
    es: Seq<RegisteredV>,
    shown: Seq<RegisteredV>,
    t: InspectableObjectType,
) -> Seq<RegisteredV> {
    es.filter(|e: RegisteredV| e.applies_to.contains(t) && !ids_of(shown).contains(e.id))
}

/// The views listed for `t`, before ordering: the providers that apply,
/// then the executors that apply under an id no such provider has.
pub open spec fn listing(
    ps: Seq<RegisteredV>,
    es: Seq<RegisteredV>,
    t: InspectableObjectType,
) -> Seq<DescriptorV> {
    let shown = applying(ps, t);
    (shown + extra_executors(es, shown, t)).map_values(|v: RegisteredV| listed(v))
}

/// The executors as a table keyed by id: for each id, the last executor
/// registered under it.
pub open spec fn keyed(es: Seq<RegisteredV>) -> Seq<RegisteredV>
    decreases es.len(),
{
    if es.len() == 0 {
        es
    } else {
        keyed(es.drop_last()).filter(|e: RegisteredV| e.id != es.last().id).push(es.last())
    }
}

/// No two executors serve one view kind.
pub open spec fn executors_wf(es: Seq<RegisteredV>) -> bool {
    forall|i: int, j: int| 0 <= i < j < es.len() ==> !clash(#[trigger] es[i], #[trigger] es[j])
}

/// Two view kinds are the same kind; custom kinds by their names.
pub open spec fn kind_eq(a: ViewKind, b: ViewKind) -> bool {
    match (a, b) {
        (ViewKind::Custom(x), ViewKind::Custom(y)) => x@ == y@,
        _ => a == b,
    }
}

/// The catalog position of a built-in kind; `-1` for a custom one.
fn kind_position(k: &ViewKind) -> (r: i8)
    ensures
        r == catalog_position(*k),
{
    match k {
        ViewKind::VerticalSlice => 0,
        ViewKind::CallGraph => 1,
        ViewKind::SeamMap => 2,
        ViewKind::DependencyGraph => 3,
        ViewKind::SourceView => 4,
        ViewKind::DataFlow => 5,
        ViewKind::ImpactRadius => 6,
        ViewKind::DiffView => 7,
        ViewKind::C4Context => 8,
        ViewKind::C4Container => 9,
        ViewKind::C4Component => 10,
        ViewKind::C4Code => 11,
        ViewKind::QualityHotspots => 12,
        ViewKind::EvidenceView => 13,
        ViewKind::DecisionGraph => 14,
        ViewKind::DecisionSupportPack => 15,
        ViewKind::ArchitectureRationale => 16,
        ViewKind::ArchitectureDrift => 17,
        ViewKind::BoundaryMap => 18,
        ViewKind::DependencyPressure => 19,
        ViewKind::ChangeImpactStory => 20,
        ViewKind::OwnershipMap => 21,
        ViewKind::RiskMap => 22,
        ViewKind::DecisionTrace => 23,
        ViewKind::TestSlice => 24,
        ViewKind::DebugSlice => 25,
        ViewKind::RefactorPlan => 26,
        ViewKind::CallersAndImplementors => 27,
        ViewKind::UsageExamples => 28,
        ViewKind::ApiSurface => 29,
        ViewKind::DeadCodeCandidates => 30,
        ViewKind::SemanticSearchResults => 31,
        ViewKind::DocCodeAlignment => 32,
        ViewKind::ExampleObject => 33,
        ViewKind::ComposedNarrative => 34,
        ViewKind::ProjectDiary => 35,
        ViewKind::ConceptMap => 36,
        ViewKind::EvidencePack => 37,
        ViewKind::Custom(_) => -1,
    }
}

/// Two view kinds are the same kind.
fn same_kind(a: &ViewKind, b: &ViewKind) -> (r: bool)
    ensures
        r == kind_eq(*a, *b),
{
    proof {
        law_known_kinds_are_the_builtins(*a);
        law_known_kinds_are_the_builtins(*b);
    }
    match (a, b) {
        (ViewKind::Custom(x), ViewKind::Custom(y)) => {
            let cx = chars_of(x.as_str());
            let cy = chars_of(y.as_str());
            chars_eq(&cx, &cy)
        },
        (ViewKind::Custom(_), _) => false,
        (_, ViewKind::Custom(_)) => false,
        _ => kind_position(a) == kind_position(b),
    }
}

/// Two executors clash when they serve the same view kind.
pub open spec fn clash(a: RegisteredV, b: RegisteredV) -> bool {
    kind_eq(a.view_kind, b.view_kind)
}

/// The first pair of executors that clash, taken in registration order:
/// the earliest second member, then the earliest first member; `None`
/// exactly when the executors may form a registry.
pub fn first_executor_clash(executors: &Vec<RegisteredView>) -> (r: Option<(usize, usize)>)
    ensures
        r is None <==> executors_wf(registered_views(executors@)),
        r matches Some((i, j)) ==> {
            let es = registered_views(executors@);
            &&& i < j < es.len()
            &&& clash(es[i as int], es[j as int])
            &&& forall|a: int, b: int| 0 <= a < b < j ==> !clash(#[trigger] es[a], #[trigger] es[b])
            &&& forall|a: int| 0 <= a < i ==> !clash(#[trigger] es[a], es[j as int])
        },
{
    let ghost es = registered_views(executors@);
    let mut j: usize = 0;
    while j < executors.len()
        invariant
            j <= executors.len(),
            es == registered_views(executors@),
            forall|a: int, b: int| 0 <= a < b < j ==> !clash(#[trigger] es[a], #[trigger] es[b]),
        decreases executors.len() - j,
    {
        let mut i: usize = 0;
        while i < j
            invariant
                i <= j < executors.len(),
                es == registered_views(executors@),
                forall|a: int, b: int| 0 <= a < b < j ==> !clash(#[trigger] es[a], #[trigger] es[b]),
                forall|a: int| 0 <= a < i ==> !clash(#[trigger] es[a], es[j as int]),
            decreases j - i,
        {
            assert(es[i as int] == executors@[i as int]@);
            assert(es[j as int] == executors@[j as int]@);
            if same_kind(&executors[i].view_kind, &executors[j].view_kind) {
                return Some((i, j));
            }
            i = i + 1;
        }
        j = j + 1;
    }
    None
}

/// Describes one view: metadata only, no payload.
pub trait ViewDescriptorProvider: Send + Sync {
    /// Stable id, e.g. `overview`.
    fn id(&self) -> &'static str;

    /// Human-readable title.
    fn title(&self) -> &'static str;

    /// The object kinds the view applies to.
    fn applies_to(&self) -> &'static [InspectableObjectType];

    /// The view's semantic intent.
    fn view_kind(&self) -> ViewKind;

    /// Compiled in; providers are built-ins unless they say otherwise.
    fn is_builtin(&self) -> (r: bool)
        default_ensures
            r,
    {
        true
    }

    /// How the view renders; JSON unless the provider says otherwise.
    fn renderer_kind(&self) -> (r: RendererKind)
        default_ensures
            r@ == RendererKindV::Json,
    {
        RendererKind::Json
    }
}

/// A provider registered at build time.
pub struct ProviderWrapper {
    pub provider: &'static dyn ViewDescriptorProvider,
}

impl ViewDescriptorDto {
    /// The descriptor of a compiled-in view with this id, title and kind.
    pub fn builtin(id: &str, title: &str, view_kind: ViewKind) -> (r: Self)
        ensures
            r.id@ == id@,
            r.title@ == title@,
            r.view_kind == view_kind,
            r.is_builtin,
            r.source is None,
    {
        ViewDescriptorDto {
            id: owned(id),
            title: owned(title),
            view_kind,
            is_builtin: true,
            source: None,
        }
    }

    /// The descriptor a provider gives: its id, title and kind, listed as
    /// a built-in.
    pub fn from_provider(provider: &dyn ViewDescriptorProvider) -> (r: Self)
        ensures
            r.is_builtin,
            r.source is None,
    {
        ViewDescriptorDto::builtin(provider.id(), provider.title(), provider.view_kind())
    }
}

/// The catalog of views: the registered providers, in registration
/// order, and the executors, keyed by id. Runtime view specs live in an
/// asynchronous store that the service attaches around this registry.
#[derive(Debug, Clone)]
pub struct ViewRegistry {
    providers: Vec<RegisteredView>,
    executors: Vec<RegisteredView>,
}

pub struct RegistryV {
    pub providers: Seq<RegisteredV>,
    pub executors: Seq<RegisteredV>,
}

impl View for ViewRegistry {
    type V = RegistryV;

    closed spec fn view(&self) -> RegistryV {
        RegistryV {
            providers: registered_views(self.providers@),
            executors: registered_views(self.executors@),
        }
    }
}

/// One step of a filter over a prefix.
proof fn lemma_filter_step<A>(s: Seq<A>, i: int, p: spec_fn(A) -> bool)
    requires
        0 <= i < s.len(),
    ensures
        s.take(i + 1).filter(p) == if p(s[i]) {
            s.take(i).filter(p).push(s[i])
        } else {
            s.take(i).filter(p)
        },
{
    reveal(Seq::filter);
    assert(s.take(i + 1).drop_last() =~= s.take(i));
}

/// `v` applies to `t`.
fn applies(v: &RegisteredView, t: InspectableObjectType) -> (r: bool)
    ensures
        r == v@.applies_to.contains(t),
{
    let mut i: usize = 0;
    while i < v.applies_to.len()
        invariant
            i <= v.applies_to.len(),
            forall|k: int| 0 <= k < i ==> v.applies_to@[k] != t,
        decreases v.applies_to.len() - i,
    {
        if v.applies_to[i] == t {
            assert(v.applies_to@[i as int] == t);
            return true;
        }
        i = i + 1;
    }
    false
}

/// The listing descriptor of `v`.
fn describe(v: &RegisteredView) -> (r: ViewDescriptorDto)
    ensures
        r@ == listed(v@),
{
    ViewDescriptorDto {
        id: v.id.clone(),
        title: v.title.clone(),
        view_kind: v.view_kind.clone(),
        is_builtin: true,
        source: None,
    }
}

/// Some descriptor among the first `k` of `ds` has the id `id`.
fn id_among(ds: &Vec<ViewDescriptorDto>, k: usize, id: &String) -> (r: bool)
    requires
        k <= ds.len(),
    ensures
        r == exists|j: int| 0 <= j < k && (#[trigger] ds@[j])@.id == id@,
{
    let mut j: usize = 0;
    while j < k
        invariant
            j <= k <= ds.len(),
            forall|m: int| 0 <= m < j ==> (#[trigger] ds@[m])@.id != id@,
        decreases k - j,
    {
        if ds[j].id == *id {
            assert(ds@[j as int]@.id == id@);
            return true;
        }
        j = j + 1;
    }
    false
}

/// `v` ordered by id; views with equal ids keep their order.
fn sort_by_id(v: &Vec<ViewDescriptorDto>) -> (r: Vec<ViewDescriptorDto>)
    ensures
        sorted_by_id(descriptors_view(r@)),
        descriptors_view(r@).to_multiset() == descriptors_view(v@).to_multiset(),
{
    broadcast use vstd::seq_lib::group_to_multiset_ensures;

    let mut out: Vec<ViewDescriptorDto> = Vec::new();
    let mut i: usize = 0;
    while i < v.len()
        invariant
            i <= v.len(),
            sorted_by_id(descriptors_view(out@)),
            descriptors_view(out@).to_multiset() == descriptors_view(v@.take(i as int)).to_multiset(),
        decreases v.len() - i,
    {
        let x = v[i].clone();
        let ghost s = descriptors_view(out@);
        let mut j: usize = out.len();
        while j > 0 && !text_le_exec(out[j - 1].id.as_str(), x.id.as_str())
            invariant
                j <= out.len(),
                s == descriptors_view(out@),
                forall|k: int| j <= k < out.len() ==> !by_id(#[trigger] s[k], x@),
            decreases j,
        {
            j = j - 1;
        }
        proof {
            assert forall|k: int| j <= k < s.len() implies by_id(x@, #[trigger] s[k]) by {
                lemma_text_le_total(s[k].id, x@.id);
            }
            assert forall|k: int| 0 <= k < j implies by_id(#[trigger] s[k], x@) by {
                if k < j - 1 {
                    assert(by_id(s[k], s[j - 1]));
                    lemma_text_le_trans(s[k].id, s[j - 1].id, x@.id);
                }
            }
        }
        out.insert(j, x);
        proof {
            let s2 = descriptors_view(out@);
            assert(s2 =~= s.insert(j as int, x@));
            assert forall|a: int, b: int| 0 <= a < b < s2.len() implies by_id(
                #[trigger] s2[a],
                #[trigger] s2[b],
            ) by {
                if b < j {
                    assert(by_id(s[a], s[b]));
                } else if b == j {
                    assert(by_id(s[a], x@));
                } else if a < j {
                    assert(by_id(s[a], s[b - 1]));
                } else if a == j {
                    assert(by_id(x@, s[b - 1]));
                } else {
                    assert(by_id(s[a - 1], s[b - 1]));
                }
            }
            vstd::seq_lib::to_multiset_insert(s, j as int, x@);
            let before = descriptors_view(v@.take(i as int));
            assert(descriptors_view(v@.take(i + 1)) =~= before.push(v@[i as int]@));
            vstd::seq_lib::to_multiset_build(before, v@[i as int]@);
            assert(x@ == v@[i as int]@);
        }
        i = i + 1;
    }
    assert(v@.take(v.len() as int) =~= v@);
    out
}

impl ViewRegistry {
    /// A registry with no registered views.
    pub fn new() -> (r: Self)
        ensures
            r@.providers == Seq::<RegisteredV>::empty(),
            r@.executors == Seq::<RegisteredV>::empty(),
    {
        let r = ViewRegistry { providers: Vec::new(), executors: Vec::new() };
        assert(r@.providers =~= Seq::<RegisteredV>::empty());
        assert(r@.executors =~= Seq::<RegisteredV>::empty());
        r
    }

    /// A registry over these providers, in registration order, and these
    /// executors, which serve distinct view kinds, keyed by id: a later
    /// executor replaces an earlier one with the same id.
    pub fn with_views(providers: Vec<RegisteredView>, executors: Vec<RegisteredView>) -> (r: Self)
        requires
            executors_wf(registered_views(executors@)),
        ensures
            r@.providers == registered_views(providers@),
            r@.executors == keyed(registered_views(executors@)),
    {
        let ghost es = registered_views(executors@);
        assert(es.len() == executors.len());
        let mut rest = executors;
        let mut table: Vec<RegisteredView> = Vec::new();
        let mut i: usize = 0;
        while rest.len() > 0
            invariant
                i + rest.len() == es.len(),
                es.len() <= usize::MAX,
                registered_views(rest@) == es.skip(i as int),
                registered_views(table@) == keyed(es.take(i as int)),
            decreases rest.len(),
        {
            let ghost before_rest = registered_views(rest@);
            let ghost before_raw = rest@;
            let e = rest.remove(0);
            proof {
                assert(before_rest[0] == e@);
                assert(rest@ =~= before_raw.subrange(1, before_raw.len() as int));
                assert forall|j: int| 0 <= j < rest@.len() implies #[trigger] registered_views(
                    rest@,
                )[j] == es.skip(i + 1)[j] by {
                    assert(registered_views(rest@)[j] == before_raw[j + 1]@);
                    assert(before_rest[j + 1] == before_raw[j + 1]@);
                    assert(before_rest[j + 1] == es.skip(i as int)[j + 1]);
                }
                assert(registered_views(rest@) =~= es.skip(i + 1));
                assert(es.take(i + 1).drop_last() =~= es.take(i as int));
                assert(es.take(i + 1).last() == e@);
            }
            let ghost tv = registered_views(table@);
            assert(tv.len() == table.len());
            let ghost pe = |x: RegisteredV| x.id != e@.id;
            let mut kept: Vec<RegisteredView> = Vec::new();
            let mut k: usize = 0;
            while table.len() > 0
                invariant
                    k + table.len() == tv.len(),
                    tv.len() <= usize::MAX,
                    registered_views(table@) == tv.skip(k as int),
                    registered_views(kept@) == tv.take(k as int).filter(pe),
                    pe == (|x: RegisteredV| x.id != e@.id),
                decreases table.len(),
            {
                let ghost bt = registered_views(table@);
                let ghost braw = table@;
                let x = table.remove(0);
                proof {
                    assert(bt[0] == x@);
                    assert(table@ =~= braw.subrange(1, braw.len() as int));
                    assert forall|j: int| 0 <= j < table@.len() implies #[trigger] registered_views(
                        table@,
                    )[j] == tv.skip(k + 1)[j] by {
                        assert(registered_views(table@)[j] == braw[j + 1]@);
                        assert(bt[j + 1] == braw[j + 1]@);
                        assert(bt[j + 1] == tv.skip(k as int)[j + 1]);
                    }
                    assert(registered_views(table@) =~= tv.skip(k + 1));
                    assert(tv[k as int] == x@);
                    lemma_filter_step(tv, k as int, pe);
                }
                let xi = chars_of(x.id.as_str());
                let ei = chars_of(e.id.as_str());
                if !chars_eq(&xi, &ei) {
                    let ghost bk = registered_views(kept@);
                    kept.push(x);
                    assert(registered_views(kept@) =~= bk.push(tv[k as int]));
                }
                k = k + 1;
            }
            assert(tv.take(tv.len() as int) =~= tv);
            let ghost bk = registered_views(kept@);
            kept.push(e);
            assert(registered_views(kept@) =~= bk.push(e@));
            table = kept;
            i = i + 1;
        }
        assert(es.take(es.len() as int) =~= es);
        ViewRegistry { providers, executors: table }
    }

    /// Every view that applies to `object_type`, ordered by id: the
    /// providers that apply, and the executors that apply under an id no
    /// such provider has.
    pub fn list_for(&self, object_type: InspectableObjectType) -> (r: Vec<ViewDescriptorDto>)
        ensures
            sorted_by_id(descriptors_view(r@)),
            descriptors_view(r@).to_multiset() == listing(
                self@.providers,
                self@.executors,
                object_type,
            ).to_multiset(),
    {
        let ghost ps = self@.providers;
        let ghost es = self@.executors;
        let ghost pp = |v: RegisteredV| v.applies_to.contains(object_type);
        let mut merged: Vec<ViewDescriptorDto> = Vec::new();
        let mut i: usize = 0;
        while i < self.providers.len()
            invariant
                i <= self.providers.len(),
                ps == registered_views(self.providers@),
                pp == (|v: RegisteredV| v.applies_to.contains(object_type)),
                descriptors_view(merged@) == ps.take(i as int).filter(pp).map_values(
                    |v: RegisteredV| listed(v),
                ),
            decreases self.providers.len() - i,
        {
            proof {
                lemma_filter_step(ps, i as int, pp);
            }
            if applies(&self.providers[i], object_type) {
                let d = describe(&self.providers[i]);
                let ghost before = descriptors_view(merged@);
                merged.push(d);
                proof {
                    assert(ps[i as int] == self.providers@[i as int]@);
                    assert(descriptors_view(merged@) =~= before.push(listed(ps[i as int])));
                    assert(descriptors_view(merged@) =~= ps.take(i + 1).filter(pp).map_values(
                        |v: RegisteredV| listed(v),
                    ));
                }
            }
            i = i + 1;
        }
        let ghost shown = applying(ps, object_type);
        proof {
            assert(ps.take(ps.len() as int) =~= ps);
            assert(shown == ps.filter(pp));
        }
        let k = merged.len();
        let ghost pe = |e: RegisteredV| e.applies_to.contains(object_type) && !ids_of(shown).contains(
            e.id,
        );
        let mut j: usize = 0;
        while j < self.executors.len()
            invariant
                j <= self.executors.len(),
                es == registered_views(self.executors@),
                shown == applying(ps, object_type),
                k == shown.len(),
                k <= merged.len(),
                pe == (|e: RegisteredV| e.applies_to.contains(object_type) && !ids_of(shown).contains(
                    e.id,
                )),
                descriptors_view(merged@) == (shown + es.take(j as int).filter(pe)).map_values(
                    |v: RegisteredV| listed(v),
                ),
            decreases self.executors.len() - j,
        {
            proof {
                lemma_filter_step(es, j as int, pe);
            }
            let e = &self.executors[j];
            let fits = applies(e, object_type);
            let taken = id_among(&merged, k, &e.id);
            proof {
                let d = descriptors_view(merged@);
                assert forall|m: int| 0 <= m < k implies (#[trigger] merged@[m])@.id == shown[m].id by {
                    assert(d[m] == merged@[m]@);
                    assert(d[m] == listed((shown + es.take(j as int).filter(pe))[m]));
                }
                if ids_of(shown).contains(e@.id) {
                    let m = choose|m: int| 0 <= m < ids_of(shown).len() && ids_of(shown)[m] == e@.id;
                    assert(merged@[m]@.id == e@.id);
                }
                if taken {
                    let m = choose|m: int| 0 <= m < k && (#[trigger] merged@[m])@.id == e@.id;
                    assert(ids_of(shown)[m] == e@.id);
                }
                assert(taken == ids_of(shown).contains(e@.id));
                assert(es[j as int] == e@);
            }
            if fits && !taken {
                let d = describe(e);
                let ghost before = descriptors_view(merged@);
                merged.push(d);
                proof {
                    assert(descriptors_view(merged@) =~= before.push(listed(es[j as int])));
                    assert(descriptors_view(merged@) =~= (shown + es.take(j + 1).filter(pe)).map_values(
                        |v: RegisteredV| listed(v),
                    ));
                }
            } else {
                proof {
                    assert(descriptors_view(merged@) =~= (shown + es.take(j + 1).filter(pe)).map_values(
                        |v: RegisteredV| listed(v),
                    ));
                }
            }
            j = j + 1;
        }
        proof {
            assert(es.take(es.len() as int) =~= es);
            assert(es.filter(pe) == extra_executors(es, shown, object_type));
        }
        sort_by_id(&merged)
    }

    /// The provider registered under `id`, the first one when several
    /// share it; `None` when no provider has that id.
    pub fn get(&self, id: &str) -> (r: Option<ViewDescriptorDto>)
        ensures
            match r {
                Some(d) => exists|j: int|
                    0 <= j < self@.providers.len() && self@.providers[j].id == id@ && d@ == listed(
                        self@.providers[j],
                    ) && forall|k: int| 0 <= k < j ==> self@.providers[k].id != id@,
                None => forall|j: int|
                    0 <= j < self@.providers.len() ==> self@.providers[j].id != id@,
            },
    {
        let ghost ps = self@.providers;
        let mut i: usize = 0;
        while i < self.providers.len()
            invariant
                i <= self.providers.len(),
                ps == registered_views(self.providers@),
                forall|k: int| 0 <= k < i ==> ps[k].id != id@,
            decreases self.providers.len() - i,
        {
            let w = chars_of(self.providers[i].id.as_str());
            if is_lit(&w, id) {
                let d = describe(&self.providers[i]);
                assert(ps[i as int] == self.providers@[i as int]@);
                return Some(d);
            }
            assert(ps[i as int] == self.providers@[i as int]@);
            i = i + 1;
        }
        None
    }

    /// Every known view kind, in a stable order.
    pub fn known_view_kinds(&self) -> (r: Vec<ViewKind>)
        ensures
            r@ == known_kinds(),
    {
        let r = vec![
            ViewKind::VerticalSlice,
            ViewKind::CallGraph,
            ViewKind::SeamMap,
            ViewKind::DependencyGraph,
            ViewKind::SourceView,
            ViewKind::DataFlow,
            ViewKind::ImpactRadius,
            ViewKind::DiffView,
            ViewKind::C4Context,
            ViewKind::C4Container,
            ViewKind::C4Component,
            ViewKind::C4Code,
            ViewKind::QualityHotspots,
            ViewKind::EvidenceView,
            ViewKind::DecisionGraph,
            ViewKind::DecisionSupportPack,
            ViewKind::ArchitectureRationale,
            ViewKind::ArchitectureDrift,
            ViewKind::BoundaryMap,
            ViewKind::DependencyPressure,
            ViewKind::ChangeImpactStory,
            ViewKind::OwnershipMap,
            ViewKind::RiskMap,
            ViewKind::DecisionTrace,
            ViewKind::TestSlice,
            ViewKind::DebugSlice,
            ViewKind::RefactorPlan,
            ViewKind::CallersAndImplementors,
            ViewKind::UsageExamples,
            ViewKind::ApiSurface,
            ViewKind::DeadCodeCandidates,
            ViewKind::SemanticSearchResults,
            ViewKind::DocCodeAlignment,
            ViewKind::ExampleObject,
            ViewKind::ComposedNarrative,
            ViewKind::ProjectDiary,
            ViewKind::ConceptMap,
            ViewKind::EvidencePack,
        ];
        assert(r@ =~= known_kinds());
        r
    }

}

/// Ids apart in a sequence stay apart in any filter of it.
proof fn lemma_filter_keeps_ids_apart(s: Seq<RegisteredV>, p: spec_fn(RegisteredV) -> bool)
    requires
        forall|a: int, b: int| 0 <= a < b < s.len() ==> (#[trigger] s[a]).id != (#[trigger] s[b]).id,
    ensures
        forall|a: int, b: int|
            0 <= a < b < s.filter(p).len() ==> (#[trigger] s.filter(p)[a]).id != (#[trigger] s.filter(
                p,
            )[b]).id,
    decreases s.len(),
{
    reveal(Seq::filter);
    if s.len() > 0 {
        let init = s.drop_last();
        assert forall|a: int, b: int| 0 <= a < b < init.len() implies (#[trigger] init[a]).id != (
        #[trigger] init[b]).id by {
            assert(init[a] == s[a] && init[b] == s[b]);
        }
        lemma_filter_keeps_ids_apart(init, p);
        let g = init.filter(p);
        if p(s.last()) {
            assert(s.filter(p) == g.push(s.last()));
            assert forall|a: int, b: int| 0 <= a < b < s.filter(p).len() implies (
            #[trigger] s.filter(p)[a]).id != (#[trigger] s.filter(p)[b]).id by {
                if b == g.len() {
                    assert(g.contains(g[a]));
                    init.lemma_filter_contains_rev(p, g[a]);
                    let m = choose|m: int| 0 <= m < init.len() && init[m] == g[a];
                    assert(s[m] == g[a]);
                    assert(s[m].id != s[s.len() - 1].id);
                } else {
                    assert(s.filter(p)[a] == g[a] && s.filter(p)[b] == g[b]);
                }
            }
        }
    }
}

/// The executor table keys its executors by id: no id appears twice,
/// each entry is a registered executor, and an executor that no later
/// one replaces under its id is in the table.
pub proof fn law_executor_table_keeps_last(es: Seq<RegisteredV>)
    ensures
        forall|a: int, b: int|
            0 <= a < b < keyed(es).len() ==> (#[trigger] keyed(es)[a]).id != (#[trigger] keyed(
                es,
            )[b]).id,
        forall|e: RegisteredV| #[trigger] keyed(es).contains(e) ==> es.contains(e),
        forall|i: int|
            0 <= i < es.len() && (forall|j: int| i < j < es.len() ==> (#[trigger] es[j]).id
                != es[i].id) ==> keyed(es).contains(#[trigger] es[i]),
    decreases es.len(),
{
    broadcast use vstd::seq_lib::group_filter_ensures;

    if es.len() > 0 {
        let init = es.drop_last();
        let last = es.last();
        law_executor_table_keeps_last(init);
        let pe = |e: RegisteredV| e.id != last.id;
        let f = keyed(init).filter(pe);
        let t = keyed(es);
        assert(t == f.push(last));
        assert forall|a: int, b: int| 0 <= a < b < t.len() implies (#[trigger] t[a]).id != (
        #[trigger] t[b]).id by {
            if b == t.len() - 1 {
                assert(pe(f[a]));
            } else {
                lemma_filter_keeps_ids_apart(keyed(init), pe);
            }
        }
        assert forall|e: RegisteredV| #[trigger] t.contains(e) implies es.contains(e) by {
            let k = choose|k: int| 0 <= k < t.len() && t[k] == e;
            if k == t.len() - 1 {
                assert(es[es.len() - 1] == e);
            } else {
                assert(f.contains(e));
                keyed(init).lemma_filter_contains_rev(pe, e);
                assert(init.contains(e));
                let m = choose|m: int| 0 <= m < init.len() && init[m] == e;
                assert(es[m] == e);
            }
        }
        assert forall|i: int|
            0 <= i < es.len() && (forall|j: int| i < j < es.len() ==> (#[trigger] es[j]).id
                != es[i].id) implies t.contains(#[trigger] es[i]) by {
            if i == es.len() - 1 {
                assert(t[t.len() - 1] == es[i]);
            } else {
                assert(init[i] == es[i]);
                assert forall|j: int| i < j < init.len() implies (#[trigger] init[j]).id
                    != init[i].id by {
                    assert(init[j] == es[j]);
                }
                assert(keyed(init).contains(init[i]));
                assert(es[es.len() - 1].id != es[i].id);
                let m = choose|m: int| 0 <= m < keyed(init).len() && keyed(init)[m] == es[i];
                keyed(init).lemma_filter_contains(pe, m);
                let q = choose|q: int| 0 <= q < f.len() && f[q] == es[i];
                assert(t[q] == es[i]);
            }
        }
    }
}

/// A listing holds exactly the views that apply: each listed view is a
/// built-in descriptor of a provider or an executor that applies to `t`;
/// every provider that applies is listed; and an executor that applies
/// is listed unless a provider that applies has its id.
pub proof fn law_listing_is_what_applies(
    ps: Seq<RegisteredV>,
    es: Seq<RegisteredV>,
    t: InspectableObjectType,
)
    ensures
        forall|i: int|
            0 <= i < listing(ps, es, t).len() ==> {
                let d = #[trigger] listing(ps, es, t)[i];
                &&& d.is_builtin
                &&& d.source is None
                &&& exists|v: RegisteredV|
                    (ps.contains(v) || es.contains(v)) && v.applies_to.contains(t) && d == listed(v)
            },
        forall|j: int|
            0 <= j < ps.len() && ps[j].applies_to.contains(t) ==> listing(ps, es, t).contains(
                listed(#[trigger] ps[j]),
            ),
        forall|j: int|
            0 <= j < es.len() && es[j].applies_to.contains(t) && !ids_of(applying(ps, t)).contains(
                es[j].id,
            ) ==> listing(ps, es, t).contains(listed(#[trigger] es[j])),
{
    broadcast use vstd::seq_lib::group_filter_ensures;

    let shown = applying(ps, t);
    let extra = extra_executors(es, shown, t);
    let all = shown + extra;
    let pa = |v: RegisteredV| v.applies_to.contains(t);
    let pe = |e: RegisteredV| e.applies_to.contains(t) && !ids_of(shown).contains(e.id);
    assert forall|i: int| 0 <= i < listing(ps, es, t).len() implies {
        let d = #[trigger] listing(ps, es, t)[i];
        &&& d.is_builtin
        &&& d.source is None
        &&& exists|v: RegisteredV|
            (ps.contains(v) || es.contains(v)) && v.applies_to.contains(t) && d == listed(v)
    } by {
        let v = all[i];
        assert(listing(ps, es, t)[i] == listed(v));
        if i < shown.len() {
            assert(shown[i] == v);
            assert(pa(shown[i]));
            assert(shown.contains(v));
            ps.lemma_filter_contains_rev(pa, v);
        } else {
            let k = i - shown.len();
            assert(extra[k] == v);
            assert(pe(extra[k]));
            assert(extra.contains(v));
            es.lemma_filter_contains_rev(pe, v);
        }
    }
    assert forall|j: int| 0 <= j < ps.len() && ps[j].applies_to.contains(t) implies listing(
        ps,
        es,
        t,
    ).contains(listed(#[trigger] ps[j])) by {
        assert(pa(ps[j]));
        assert(shown.contains(ps[j]));
        let m = choose|m: int| 0 <= m < shown.len() && shown[m] == ps[j];
        assert(all[m] == ps[j]);
        assert(listing(ps, es, t)[m] == listed(ps[j]));
    }
    assert forall|j: int|
        0 <= j < es.len() && es[j].applies_to.contains(t) && !ids_of(applying(ps, t)).contains(
            es[j].id,
        ) implies listing(ps, es, t).contains(listed(#[trigger] es[j])) by {
        assert(pe(es[j]));
        assert(extra.contains(es[j]));
        let m = choose|m: int| 0 <= m < extra.len() && extra[m] == es[j];
        assert(all[shown.len() + m] == es[j]);
        assert(listing(ps, es, t)[shown.len() + m] == listed(es[j]));
    }
}

/// The position of a built-in kind in the catalog.
pub open spec fn catalog_position(k: ViewKind) -> int {
    match k {
        ViewKind::VerticalSlice => 0,
        ViewKind::CallGraph => 1,
        ViewKind::SeamMap => 2,
        ViewKind::DependencyGraph => 3,
        ViewKind::SourceView => 4,
        ViewKind::DataFlow => 5,
        ViewKind::ImpactRadius => 6,
        ViewKind::DiffView => 7,
        ViewKind::C4Context => 8,
        ViewKind::C4Container => 9,
        ViewKind::C4Component => 10,
        ViewKind::C4Code => 11,
        ViewKind::QualityHotspots => 12,
        ViewKind::EvidenceView => 13,
        ViewKind::DecisionGraph => 14,
        ViewKind::DecisionSupportPack => 15,
        ViewKind::ArchitectureRationale => 16,
        ViewKind::ArchitectureDrift => 17,
        ViewKind::BoundaryMap => 18,
        ViewKind::DependencyPressure => 19,
        ViewKind::ChangeImpactStory => 20,
        ViewKind::OwnershipMap => 21,
        ViewKind::RiskMap => 22,
        ViewKind::DecisionTrace => 23,
        ViewKind::TestSlice => 24,
        ViewKind::DebugSlice => 25,
        ViewKind::RefactorPlan => 26,
        ViewKind::CallersAndImplementors => 27,
        ViewKind::UsageExamples => 28,
        ViewKind::ApiSurface => 29,
        ViewKind::DeadCodeCandidates => 30,
        ViewKind::SemanticSearchResults => 31,
        ViewKind::DocCodeAlignment => 32,
        ViewKind::ExampleObject => 33,
        ViewKind::ComposedNarrative => 34,
        ViewKind::ProjectDiary => 35,
        ViewKind::ConceptMap => 36,
        ViewKind::EvidencePack => 37,
        ViewKind::Custom(_) => -1,
    }
}

/// The catalog lists every built-in view kind, each exactly once, and no
/// custom kind.
pub proof fn law_known_kinds_are_the_builtins(k: ViewKind)
    ensures
        !(k is Custom) ==> 0 <= catalog_position(k) < known_kinds().len()
            && known_kinds()[catalog_position(k)] == k,
        forall|i: int| 0 <= i < known_kinds().len() ==> catalog_position(#[trigger] known_kinds()[i]) == i,
{
}

} // verus!
