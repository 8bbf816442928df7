//! MoldQL scaffolds: declarative view recipes, each mapping a kind of
//! inspectable object to a query template and a recommended view and
//! renderer.
//!
//! A scaffold is valid when its id, label and query template are not
//! empty, its object type is known, and its texts fit their limits
//! (512 bytes for intent, label and description, 4096 for the query
//! template). A registry holds valid scaffolds with distinct ids, in
//! the order they were given.

use vstd::prelude::*;
use crate::text::{
    chars_of, owned, concat, append, u64_to_string, decimal, utf8_len, lemma_utf8_len_encode,
};
use crate::views::{InspectableObjectType, object_type_of, object_type_from_wire};

verus! {

/// Longest intent, label or description, in bytes.
pub const MAX_TEXT_LEN: usize = 512;

/// Longest query template, in bytes.
pub const MAX_QUERY_LEN: usize = 4096;

/// A scaffold definition.
#[derive(Debug, Clone)]
pub struct Scaffold {
    /// Unique identifier, e.g. `callers_and_callees`.
    pub id: String,
    /// The inspectable object type this scaffold applies to.
    pub object_type: String,
    /// One-line semantic intent.
    pub intent: String,
    /// Short display label.
    pub label: String,
    /// Longer explanation.
    pub description: String,
    /// MoldQL query with an `{{object_id}}` placeholder.
    pub query_template: String,
    /// Recommended view kind (snake_case name).
    pub view_kind: String,
    /// Recommended renderer kind (snake_case name).
    pub renderer_kind: String,
    /// Eligibility predicate.
    pub applies_when: Option<String>,
    /// Whether the scaffold produces relation-candidate edges.
    pub produces_relation_candidates: bool,
}

/// The object types a scaffold may name: every known kind, by its
/// snake_case name.
pub open spec fn scaffold_object_type(s: Seq<char>) -> Option<InspectableObjectType> {
    object_type_of(s)
}

/// Why a scaffold is invalid.
#[derive(Debug, Clone)]
pub enum ScaffoldValidationError {
    EmptyField(&'static str),
    UnknownObjectType(String),
    FieldTooLong { field: &'static str, len: usize, max: usize },
}

pub enum ValidationErrorV {
    EmptyField(Seq<char>),
    UnknownObjectType(Seq<char>),
    FieldTooLong { field: Seq<char>, len: nat, max: nat },
}

impl View for ScaffoldValidationError {
    type V = ValidationErrorV;

    open spec fn view(&self) -> ValidationErrorV {
        match self {
            ScaffoldValidationError::EmptyField(f) => ValidationErrorV::EmptyField(f@),
            ScaffoldValidationError::UnknownObjectType(s) => ValidationErrorV::UnknownObjectType(
                s@,
            ),
            ScaffoldValidationError::FieldTooLong { field, len, max } => {
                ValidationErrorV::FieldTooLong { field: field@, len: *len as nat, max: *max as nat }
            },
        }
    }
}

/// The message of a validation error.
pub open spec fn validation_message(e: ValidationErrorV) -> Seq<char> {
    match e {
        ValidationErrorV::EmptyField(f) => "scaffold has empty `"@ + f + "` field"@,
        ValidationErrorV::UnknownObjectType(s) => "scaffold has unknown `object_type`: `"@ + s
            + "`"@,
        ValidationErrorV::FieldTooLong { field, len, max } => "scaffold `"@ + field
            + "` length "@ + decimal(len) + " exceeds maximum "@ + decimal(max),
    }
}

impl ScaffoldValidationError {
    /// The error as text.
    pub fn message(&self) -> (r: String)
        ensures
            r@ == validation_message(self@),
    {
        match self {
            ScaffoldValidationError::EmptyField(f) => {
                let mut m = concat("scaffold has empty `", f);
                append(&mut m, "` field");
                m
            },
            ScaffoldValidationError::UnknownObjectType(s) => {
                let mut m = concat("scaffold has unknown `object_type`: `", s.as_str());
                append(&mut m, "`");
                m
            },
            ScaffoldValidationError::FieldTooLong { field, len, max } => {
                let mut m = concat("scaffold `", field);
                append(&mut m, "` length ");
                let l = u64_to_string(*len as u64);
                append(&mut m, l.as_str());
                append(&mut m, " exceeds maximum ");
                let x = u64_to_string(*max as u64);
                append(&mut m, x.as_str());
                m
            },
        }
    }
}

/// The length of `s` in bytes: the length of its UTF-8 encoding.
fn byte_len(s: &String) -> (r: usize)
    ensures
        r == utf8_len(s@),
{
    let b = s.as_str().as_bytes();
    proof {
        lemma_utf8_len_encode(s@);
    }
    b.len()
}

/// The outcome of validating `sc`.
pub open spec fn validate_spec(sc: Scaffold) -> Result<(), ValidationErrorV> {
    if sc.id@.len() == 0 {
        Err(ValidationErrorV::EmptyField("id"@))
    } else if scaffold_object_type(sc.object_type@) is None {
        Err(ValidationErrorV::UnknownObjectType(sc.object_type@))
    } else if utf8_len(sc.intent@) > 512 {
        Err(ValidationErrorV::FieldTooLong { field: "intent"@, len: utf8_len(sc.intent@), max: 512 })
    } else if sc.label@.len() == 0 {
        Err(ValidationErrorV::EmptyField("label"@))
    } else if utf8_len(sc.label@) > 512 {
        Err(ValidationErrorV::FieldTooLong { field: "label"@, len: utf8_len(sc.label@), max: 512 })
    } else if utf8_len(sc.description@) > 512 {
        Err(
            ValidationErrorV::FieldTooLong {
                field: "description"@,
                len: utf8_len(sc.description@),
                max: 512,
            },
        )
    } else if sc.query_template@.len() == 0 {
        Err(ValidationErrorV::EmptyField("query_template"@))
    } else if utf8_len(sc.query_template@) > 4096 {
        Err(
            ValidationErrorV::FieldTooLong {
                field: "query_template"@,
                len: utf8_len(sc.query_template@),
                max: 4096,
            },
        )
    } else {
        Ok(())
    }
}

impl Scaffold {
    /// The object type named `s`; `None` for an unknown name.
    pub fn parse_object_type(s: &str) -> (r: Option<InspectableObjectType>)
        ensures
            r == scaffold_object_type(s@),
    {
        object_type_from_wire(s)
    }

    /// Checks the scaffold's text fields and object type.
    pub fn validate(&self) -> (r: Result<(), ScaffoldValidationError>)
        ensures
            match (r, validate_spec(*self)) {
                (Ok(()), Ok(())) => true,
                (Err(e), Err(ev)) => e@ == ev,
                _ => false,
            },
    {
        if self.id.as_str().is_empty() {
            return Err(ScaffoldValidationError::EmptyField("id"));
        }
        if Scaffold::parse_object_type(self.object_type.as_str()).is_none() {
            return Err(ScaffoldValidationError::UnknownObjectType(owned(self.object_type.as_str())));
        }
        let n = byte_len(&self.intent);
        if n > MAX_TEXT_LEN {
            return Err(ScaffoldValidationError::FieldTooLong { field: "intent", len: n, max: MAX_TEXT_LEN });
        }
        if self.label.as_str().is_empty() {
            return Err(ScaffoldValidationError::EmptyField("label"));
        }
        let n = byte_len(&self.label);
        if n > MAX_TEXT_LEN {
            return Err(ScaffoldValidationError::FieldTooLong { field: "label", len: n, max: MAX_TEXT_LEN });
        }
        let n = byte_len(&self.description);
        if n > MAX_TEXT_LEN {
            return Err(
                ScaffoldValidationError::FieldTooLong { field: "description", len: n, max: MAX_TEXT_LEN },
            );
        }
        if self.query_template.as_str().is_empty() {
            return Err(ScaffoldValidationError::EmptyField("query_template"));
        }
        let n = byte_len(&self.query_template);
        if n > MAX_QUERY_LEN {
            return Err(
                ScaffoldValidationError::FieldTooLong {
                    field: "query_template",
                    len: n,
                    max: MAX_QUERY_LEN,
                },
            );
        }
        Ok(())
    }
}

/// Why a set of scaffolds cannot form a registry.
#[derive(Debug, Clone, PartialEq, Eq)]
pub enum ScaffoldLoadError {
    Parse(String),
    EmptyScaffolds,
    Validation { id: String, error: String },
    DuplicateId(String),
}

pub enum LoadErrorV {
    Parse(Seq<char>),
    EmptyScaffolds,
    Validation { id: Seq<char>, error: Seq<char> },
    DuplicateId(Seq<char>),
}

impl View for ScaffoldLoadError {
    type V = LoadErrorV;

    open spec fn view(&self) -> LoadErrorV {
        match self {
            ScaffoldLoadError::Parse(m) => LoadErrorV::Parse(m@),
            ScaffoldLoadError::EmptyScaffolds => LoadErrorV::EmptyScaffolds,
            ScaffoldLoadError::Validation { id, error } => LoadErrorV::Validation {
                id: id@,
                error: error@,
            },
            ScaffoldLoadError::DuplicateId(id) => LoadErrorV::DuplicateId(id@),
        }
    }
}

/// The message of a load error.
pub open spec fn load_message(e: LoadErrorV) -> Seq<char> {
    match e {
        LoadErrorV::Parse(m) => "failed to parse YAML: "@ + m,
        LoadErrorV::EmptyScaffolds => "moldql-scaffolds.yaml contains no scaffolds"@,
        LoadErrorV::Validation { id, error } => "scaffold `"@ + id + "` failed validation: "@
            + error,
        LoadErrorV::DuplicateId(id) => "duplicate scaffold id: `"@ + id + "`"@,
    }
}

impl ScaffoldLoadError {
    /// The error as text.
    pub fn message(&self) -> (r: String)
        ensures
            r@ == load_message(self@),
    {
        match self {
            ScaffoldLoadError::Parse(m) => concat("failed to parse YAML: ", m.as_str()),
            ScaffoldLoadError::EmptyScaffolds => owned("moldql-scaffolds.yaml contains no scaffolds"),
            ScaffoldLoadError::Validation { id, error } => {
                let mut r = concat("scaffold `", id.as_str());
                append(&mut r, "` failed validation: ");
                append(&mut r, error.as_str());
                r
            },
            ScaffoldLoadError::DuplicateId(id) => {
                let mut r = concat("duplicate scaffold id: `", id.as_str());
                append(&mut r, "`");
                r
            },
        }
    }
}

/// Some scaffold before index `i` has the id of scaffold `i`.
pub open spec fn id_seen_before(v: Seq<Scaffold>, i: int) -> bool {
    exists|j: int| 0 <= j < i && (#[trigger] v[j]).id@ == v[i].id@
}

/// The first problem among `v[i..]`, checking in order: an invalid
/// scaffold, or an id seen before.
pub open spec fn first_problem(v: Seq<Scaffold>, i: int) -> Option<LoadErrorV>
    decreases v.len() - i,
{
    if i < 0 || i >= v.len() {
        None
    } else {
        match validate_spec(v[i]) {
            Err(e) => Some(LoadErrorV::Validation { id: v[i].id@, error: validation_message(e) }),
            Ok(()) => if id_seen_before(v, i) {
                Some(LoadErrorV::DuplicateId(v[i].id@))
            } else {
                first_problem(v, i + 1)
            },
        }
    }
}

/// The outcome of building a registry from `v`.
pub open spec fn load_spec(v: Seq<Scaffold>) -> Option<LoadErrorV> {
    if v.len() == 0 {
        Some(LoadErrorV::EmptyScaffolds)
    } else {
        first_problem(v, 0)
    }
}

/// At least one scaffold, every one valid, no id twice.
pub open spec fn registry_wf(v: Seq<Scaffold>) -> bool {
    &&& v.len() > 0
    &&& forall|i: int| 0 <= i < v.len() ==> validate_spec(#[trigger] v[i]) is Ok
    &&& forall|i: int, j: int| 0 <= i < j < v.len() ==> (#[trigger] v[i]).id@ != (#[trigger] v[j]).id@
}

/// Without a problem from `i` on, the scaffolds from `i` on are valid
/// and none repeats an earlier id.
proof fn lemma_no_problem_from(v: Seq<Scaffold>, i: int)
    requires
        0 <= i <= v.len(),
        first_problem(v, i) is None,
    ensures
        forall|k: int| i <= k < v.len() ==> validate_spec(#[trigger] v[k]) is Ok,
        forall|j: int, k: int| 0 <= j < k && i <= k < v.len() ==> (#[trigger] v[j]).id@ != (#[trigger] v[k]).id@,
    decreases v.len() - i,
{
    if i < v.len() {
        lemma_no_problem_from(v, i + 1);
        assert forall|j: int| 0 <= j < i implies (#[trigger] v[j]).id@ != v[i].id@ by {
            if v[j].id@ == v[i].id@ {
                assert(id_seen_before(v, i));
            }
        }
    }
}

/// Scaffolds, valid and with distinct ids, in order.
pub struct ScaffoldRegistry {
    scaffolds: Vec<Scaffold>,
}

impl View for ScaffoldRegistry {
    type V = Seq<Scaffold>;

    closed spec fn view(&self) -> Seq<Scaffold> {
        self.scaffolds@
    }
}

impl ScaffoldRegistry {
    /// Builds a registry from scaffolds in order; refuses an empty list,
    /// the first invalid scaffold, and the first repeated id.
    pub fn from_scaffolds(scaffolds: Vec<Scaffold>) -> (r: Result<ScaffoldRegistry, ScaffoldLoadError>)
        ensures
            match (r, load_spec(scaffolds@)) {
                (Ok(reg), None) => reg@ == scaffolds@,
                (Err(e), Some(ev)) => e@ == ev,
                _ => false,
            },
            r matches Ok(reg) ==> registry_wf(reg@),
    {
        if scaffolds.len() == 0 {
            return Err(ScaffoldLoadError::EmptyScaffolds);
        }
        let mut i: usize = 0;
        while i < scaffolds.len()
            invariant
                i <= scaffolds.len(),
                scaffolds@.len() > 0,
                first_problem(scaffolds@, i as int) == first_problem(scaffolds@, 0),
            decreases scaffolds.len() - i,
        {
            let sc = &scaffolds[i];
            match sc.validate() {
                Err(e) => {
                    let error = e.message();
                    return Err(ScaffoldLoadError::Validation { id: owned(sc.id.as_str()), error });
                },
                Ok(()) => {},
            }
            let mut j: usize = 0;
            while j < i
                invariant
                    j <= i < scaffolds.len(),
                    scaffolds@.len() > 0,
                    first_problem(scaffolds@, i as int) == first_problem(scaffolds@, 0),
                    validate_spec(scaffolds@[i as int]) == Ok::<(), ValidationErrorV>(()),
                    forall|k: int| 0 <= k < j ==> scaffolds@[k].id@ != scaffolds@[i as int].id@,
                decreases i - j,
            {
                let same = chars_equal(scaffolds[j].id.as_str(), scaffolds[i].id.as_str());
                if same {
                    proof {
                        assert(scaffolds@[j as int].id@ == scaffolds@[i as int].id@);
                        assert(id_seen_before(scaffolds@, i as int));
                    }
                    return Err(ScaffoldLoadError::DuplicateId(owned(scaffolds[i].id.as_str())));
                }
                j = j + 1;
            }
            i = i + 1;
        }
        proof {
            lemma_no_problem_from(scaffolds@, 0);
        }
        Ok(ScaffoldRegistry { scaffolds })
    }

    /// All scaffolds, in order.
    pub fn all(&self) -> (r: &[Scaffold])
        ensures
            r@ == self@,
    {
        self.scaffolds.as_slice()
    }

    /// The scaffolds whose object type is `object_type`, in order.
    pub fn get_for_object_type(&self, object_type: &str) -> (r: Vec<&Scaffold>)
        ensures
            r@.len() <= self@.len(),
            r@.map_values(|s: &Scaffold| *s) == self@.filter(
                |s: Scaffold| s.object_type@ == object_type@,
            ),
    {
        let mut r: Vec<&Scaffold> = Vec::new();
        let mut i: usize = 0;
        while i < self.scaffolds.len()
            invariant
                i <= self.scaffolds.len(),
                r@.len() <= i,
                r@.map_values(|s: &Scaffold| *s) == self.scaffolds@.take(i as int).filter(
                    |s: Scaffold| s.object_type@ == object_type@,
                ),
            decreases self.scaffolds.len() - i,
        {
            let sc = &self.scaffolds[i];
            let ghost before = r@;
            proof {
                assert(self.scaffolds@.take(i + 1).drop_last() =~= self.scaffolds@.take(i as int));
                reveal(Seq::filter);
            }
            if chars_equal(sc.object_type.as_str(), object_type) {
                r.push(sc);
                proof {
                    assert(r@.map_values(|s: &Scaffold| *s) =~= before.map_values(
                        |s: &Scaffold| *s,
                    ).push(*sc));
                }
            }
            i = i + 1;
        }
        proof {
            assert(self.scaffolds@.take(self.scaffolds.len() as int) =~= self.scaffolds@);
        }
        r
    }

    /// The first scaffold with id `id`, if any.
    pub fn get_by_id(&self, id: &str) -> (r: Option<&Scaffold>)
        ensures
            match r {
                Some(s) => exists|k: int|
                    0 <= k < self@.len() && self@[k] == *s && s.id@ == id@ && forall|j: int|
                        0 <= j < k ==> (#[trigger] self@[j]).id@ != id@,
                None => forall|k: int| 0 <= k < self@.len() ==> (#[trigger] self@[k]).id@ != id@,
            },
    {
        let mut i: usize = 0;
        while i < self.scaffolds.len()
            invariant
                i <= self.scaffolds.len(),
                forall|k: int| 0 <= k < i ==> (#[trigger] self.scaffolds@[k]).id@ != id@,
            decreases self.scaffolds.len() - i,
        {
            if chars_equal(self.scaffolds[i].id.as_str(), id) {
                return Some(&self.scaffolds[i]);
            }
            i = i + 1;
        }
        None
    }
}

/// Two strings hold the same characters.
fn chars_equal(a: &str, b: &str) -> (r: bool)
    ensures
        r == (a@ == b@),
{
    let x = chars_of(a);
    let y = chars_of(b);
    crate::text::chars_eq(&x, &y)
}

} // verus!
