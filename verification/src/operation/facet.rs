//! Uniform capture/restore contracts for mutable repository state.

use vstd::prelude::*;
use vstd::string::*;

use super::store::joined;
use crate::oid::Oid;
use crate::order;
use crate::text;
use crate::text::{decimal_text, same};

verus! {

pub type FacetName = String;

#[derive(Debug, Clone, Copy, PartialEq, Eq, Structural)]
pub enum RestorePolicy {
    AutoRestore,
    Rebuild,
    NeverRestore,
}

#[derive(Debug, PartialEq, Eq)]
pub struct FacetCapture {
    pub facet: FacetName,
    pub schema_version: u32,
    pub payload_oid: Option<Oid>,
    /// A JSON document.
    pub meta: String,
}

/// What a [`FacetCapture`] says.
#[verifier::ext_equal]
pub struct CaptureModel {
    pub facet: Seq<char>,
    pub schema_version: u32,
    pub payload_oid: Option<Seq<char>>,
    pub meta: Seq<char>,
}

impl View for FacetCapture {
    type V = CaptureModel;

    open spec fn view(&self) -> CaptureModel {
        CaptureModel {
            facet: self.facet@,
            schema_version: self.schema_version,
            payload_oid: super::store::opt_oid(self.payload_oid),
            meta: self.meta@,
        }
    }
}

impl Clone for FacetCapture {
    fn clone(&self) -> (r: Self)
        ensures
            r == *self,
    {
        FacetCapture {
            facet: self.facet.clone(),
            schema_version: self.schema_version,
            payload_oid: match &self.payload_oid {
                Some(id) => Some(id.clone()),
                None => None,
            },
            meta: self.meta.clone(),
        }
    }
}

#[derive(Debug)]
pub struct FacetCaptureCtx {
    pub workspace_id: String,
}

impl Default for FacetCaptureCtx {
    fn default() -> (r: Self)
        ensures
            r.workspace_id@.len() == 0,
    {
        FacetCaptureCtx { workspace_id: String::new() }
    }
}

/// A facet whose file is to be written from an object.
#[derive(Debug, PartialEq, Eq)]
pub struct FacetWrite {
    pub facet: FacetName,
    pub object: Oid,
}

/// What is being restored, and the writes that the restored facets ask for.
#[derive(Debug)]
pub struct FacetRestoreCtx {
    pub workspace_id: String,
    pub writes: Vec<FacetWrite>,
}

impl Default for FacetRestoreCtx {
    fn default() -> (r: Self)
        ensures
            r.workspace_id@.len() == 0,
            r.writes@.len() == 0,
    {
        FacetRestoreCtx { workspace_id: String::new(), writes: Vec::new() }
    }
}

#[derive(Debug, Clone, PartialEq, Eq)]
pub struct FacetDiff {
    pub facet: FacetName,
    pub from: Option<Oid>,
    pub to: Option<Oid>,
}

#[derive(Debug, PartialEq, Eq)]
pub enum FacetError {
    Duplicate(FacetName),
    Unregistered(FacetName),
    InvalidCapture(FacetName, String),
    Operation(FacetName, String),
}

/// What a [`FacetError`] says.
pub enum FacetErrorModel {
    Duplicate(Seq<char>),
    Unregistered(Seq<char>),
    InvalidCapture(Seq<char>, Seq<char>),
    Operation(Seq<char>, Seq<char>),
}

impl View for FacetError {
    type V = FacetErrorModel;

    open spec fn view(&self) -> FacetErrorModel {
        match self {
            FacetError::Duplicate(n) => FacetErrorModel::Duplicate(n@),
            FacetError::Unregistered(n) => FacetErrorModel::Unregistered(n@),
            FacetError::InvalidCapture(n, m) => FacetErrorModel::InvalidCapture(n@, m@),
            FacetError::Operation(n, m) => FacetErrorModel::Operation(n@, m@),
        }
    }
}

impl FacetErrorModel {
    /// The sentence that reports the error.
    pub open spec fn message(self) -> Seq<char> {
        match self {
            FacetErrorModel::Duplicate(n) => "facet '"@ + n + "' is already registered"@,
            FacetErrorModel::Unregistered(n) => "facet '"@ + n + "' is not registered"@,
            FacetErrorModel::InvalidCapture(n, m) => "facet '"@ + n + "' capture is invalid: "@ + m,
            FacetErrorModel::Operation(n, m) => "facet '"@ + n + "' operation failed: "@ + m,
        }
    }
}

impl FacetError {
    /// The sentence that reports the error.
    pub fn message(&self) -> (r: String)
        ensures
            r@ == self@.message(),
    {
        match self {
            FacetError::Duplicate(n) => {
                let mut out = joined("facet '", n.as_str());
                out.append("' is already registered");
                out
            },
            FacetError::Unregistered(n) => {
                let mut out = joined("facet '", n.as_str());
                out.append("' is not registered");
                out
            },
            FacetError::InvalidCapture(n, m) => {
                let mut out = joined("facet '", n.as_str());
                out.append("' capture is invalid: ");
                out.append(m.as_str());
                out
            },
            FacetError::Operation(n, m) => {
                let mut out = joined("facet '", n.as_str());
                out.append("' operation failed: ");
                out.append(m.as_str());
                out
            },
        }
    }
}

pub open spec fn oid_texts(v: Seq<Oid>) -> Seq<Seq<char>> {
    v.map_values(|id: Oid| id@)
}

/// One part of the state that can be captured and restored. Its name, schema
/// version and restore policy do not change, and it judges a capture, and
/// finds the objects that a capture refers to, by the capture alone. What an
/// impl does not say of itself is some fixed value that is not known.
pub trait StateFacet: Sized {
    closed spec fn name_model(&self) -> Seq<char> {
        arbitrary()
    }

    closed spec fn version_model(&self) -> u32 {
        arbitrary()
    }

    closed spec fn policy_model(&self) -> RestorePolicy {
        arbitrary()
    }

    /// Whether the facet takes a capture for one of its own.
    closed spec fn accepts(&self, capture: CaptureModel) -> bool {
        arbitrary()
    }

    /// The objects that a capture refers to.
    closed spec fn roots_model(&self, capture: CaptureModel) -> Seq<Seq<char>> {
        arbitrary()
    }

    fn name(&self) -> (r: FacetName)
        ensures
            r@ == self.name_model(),
    ;

    fn schema_version(&self) -> (r: u32)
        ensures
            r == self.version_model(),
    ;

    fn restore_policy(&self) -> (r: RestorePolicy)
        ensures
            r == self.policy_model(),
    ;

    fn capture(&self, ctx: &FacetCaptureCtx) -> (r: Result<FacetCapture, FacetError>);

    fn validate(&self, capture: &FacetCapture) -> (r: Result<(), FacetError>)
        ensures
            (r is Ok) == self.accepts(capture@),
    ;

    fn restore(&self, capture: &FacetCapture, ctx: &mut FacetRestoreCtx) -> (r: Result<
        (),
        FacetError,
    >);

    fn diff(&self, from: &FacetCapture, to: &FacetCapture) -> (r: Result<FacetDiff, FacetError>);

    fn roots(&self, capture: &FacetCapture) -> (r: Vec<Oid>)
        ensures
            oid_texts(r@) == self.roots_model(capture@),
    ;
}

/// Whether a facet may answer a capture with `r`.
pub open spec fn captures_as<F: StateFacet>(
    f: F,
    ctx: &FacetCaptureCtx,
    r: Result<FacetCapture, FacetError>,
) -> bool {
    call_ensures(F::capture, (&f, ctx), r)
}

/// Whether a facet may have a capture.
pub open spec fn can_capture<F: StateFacet>(f: F, ctx: &FacetCaptureCtx) -> bool {
    exists|c: FacetCapture| #[trigger] captures_as(f, ctx, Ok(c))
}

/// The registered facets, in the order of their names.
#[derive(Debug)]
pub struct FacetRegistry<F: StateFacet> {
    pub facets: Vec<F>,
}

/// The names of the facets.
pub open spec fn facet_names<F: StateFacet>(facets: Seq<F>) -> Seq<Seq<char>> {
    facets.map_values(|f: F| f.name_model())
}

/// Whether names stand in their order, each once.
pub open spec fn strictly_ordered(names: Seq<Seq<char>>) -> bool {
    forall|i: int, j: int|
        0 <= i < j < names.len() ==> order::text_le(#[trigger] names[i], #[trigger] names[j])
            && names[i] != names[j]
}

/// The place of `name` from `i` on; the end where it does not occur.
pub open spec fn place_of(names: Seq<Seq<char>>, name: Seq<char>, i: int) -> int
    decreases names.len() - i,
{
    if 0 <= i < names.len() && names[i] != name {
        place_of(names, name, i + 1)
    } else {
        i
    }
}

pub proof fn lemma_place_of(names: Seq<Seq<char>>, name: Seq<char>, i: int)
    requires
        0 <= i <= names.len(),
    ensures
        i <= place_of(names, name, i) <= names.len(),
        place_of(names, name, i) < names.len() ==> names[place_of(names, name, i)] == name,
        forall|j: int| i <= j < place_of(names, name, i) ==> names[j] != name,
    decreases names.len() - i,
{
    if i < names.len() && names[i] != name {
        lemma_place_of(names, name, i + 1);
    }
}

/// How a capture fails: it belongs to no registered facet, its schema is not
/// that of its facet, or its facet refuses it.
pub enum CaptureFault {
    Unregistered,
    Version,
    Refused,
}

/// How a capture fails, if it does.
pub open spec fn fault_of<F: StateFacet>(facets: Seq<F>, c: CaptureModel) -> Option<CaptureFault> {
    let k = place_of(facet_names(facets), c.facet, 0);
    if k >= facets.len() {
        Some(CaptureFault::Unregistered)
    } else if c.schema_version != facets[k].version_model() {
        Some(CaptureFault::Version)
    } else if !facets[k].accepts(c) {
        Some(CaptureFault::Refused)
    } else {
        None
    }
}

/// The error for a capture that fails before its facet is asked.
pub open spec fn fault_error<F: StateFacet>(facets: Seq<F>, c: CaptureModel) -> FacetErrorModel {
    let k = place_of(facet_names(facets), c.facet, 0);
    if k >= facets.len() {
        FacetErrorModel::Unregistered(c.facet)
    } else {
        FacetErrorModel::InvalidCapture(
            c.facet,
            "schema version "@ + text::decimal(c.schema_version as nat) + " does not match "@
                + text::decimal(facets[k].version_model() as nat),
        )
    }
}

pub open spec fn capture_models(v: Seq<FacetCapture>) -> Seq<CaptureModel> {
    v.map_values(|c: FacetCapture| c@)
}

/// The first capture from `i` on that fails; the end where none does.
pub open spec fn first_fault<F: StateFacet>(
    facets: Seq<F>,
    captures: Seq<CaptureModel>,
    i: int,
) -> int
    decreases captures.len() - i,
{
    if 0 <= i < captures.len() && fault_of(facets, captures[i]) is None {
        first_fault(facets, captures, i + 1)
    } else {
        i
    }
}

pub proof fn lemma_first_fault<F: StateFacet>(
    facets: Seq<F>,
    captures: Seq<CaptureModel>,
    i: int,
)
    requires
        0 <= i <= captures.len(),
    ensures
        i <= first_fault(facets, captures, i) <= captures.len(),
        first_fault(facets, captures, i) < captures.len() ==> fault_of(
            facets,
            captures[first_fault(facets, captures, i)],
        ) is Some,
        forall|j: int|
            i <= j < first_fault(facets, captures, i) ==> fault_of(
                facets,
                #[trigger] captures[j],
            ) is None,
    decreases captures.len() - i,
{
    if i < captures.len() && fault_of(facets, captures[i]) is None {
        lemma_first_fault(facets, captures, i + 1);
    }
}

/// Whether a facet may refuse a capture with the error.
pub open spec fn refuses_as<F: StateFacet>(f: F, capture: FacetCapture, e: FacetError) -> bool {
    call_ensures(F::validate, (&f, &capture), Err(e))
}

/// Whether `r` reports on `captures` as the registered facets judge them: `Ok`
/// where none fails, else the error of the first that does. A capture that its
/// facet refuses is reported with the facet's own error.
pub open spec fn judged<F: StateFacet>(
    facets: Seq<F>,
    captures: Seq<FacetCapture>,
    r: Result<(), FacetError>,
) -> bool {
    let models = capture_models(captures);
    let k = first_fault(facets, models, 0);
    match r {
        Ok(_) => k == captures.len(),
        Err(e) => k < captures.len() && if fault_of(facets, models[k]) == Some(
            CaptureFault::Refused,
        ) {
            refuses_as(
                facets[place_of(facet_names(facets), models[k].facet, 0)],
                captures[k],
                e,
            )
        } else {
            e@ == fault_error(facets, models[k])
        },
    }
}

/// Whether a capture can be brought back.
pub open spec fn restorable<F: StateFacet>(facets: Seq<F>, c: CaptureModel) -> bool {
    let k = place_of(facet_names(facets), c.facet, 0);
    &&& fault_of(facets, c) is None
    &&& c.payload_oid is Some
    &&& !(facets[k].policy_model() is NeverRestore)
}

/// The objects that all captures refer to, in order.
pub open spec fn all_roots<F: StateFacet>(facets: Seq<F>, captures: Seq<CaptureModel>) -> Seq<
    Seq<char>,
>
    decreases captures.len(),
{
    if captures.len() == 0 {
        Seq::empty()
    } else {
        let c = captures.last();
        all_roots(facets, captures.drop_last()) + facets[place_of(
            facet_names(facets),
            c.facet,
            0,
        )].roots_model(c)
    }
}

impl<F: StateFacet> Default for FacetRegistry<F> {
    fn default() -> (r: Self)
        ensures
            r.facets@.len() == 0,
            r.wf(),
    {
        FacetRegistry { facets: Vec::new() }
    }
}

impl<F: StateFacet> FacetRegistry<F> {
    /// Whether the facets stand in the order of their names, each name once.
    pub open spec fn wf(self) -> bool {
        strictly_ordered(facet_names(self.facets@))
    }

    fn place(&self, name: &str) -> (r: usize)
        ensures
            r == place_of(facet_names(self.facets@), name@, 0),
            r <= self.facets@.len(),
    {
        let ghost names = facet_names(self.facets@);
        let mut i: usize = 0;
        while i < self.facets.len()
            invariant
                i <= self.facets@.len(),
                names == facet_names(self.facets@),
                place_of(names, name@, i as int) == place_of(names, name@, 0),
            decreases self.facets@.len() - i,
        {
            assert(names[i as int] == self.facets@[i as int].name_model());
            let own = self.facets[i].name();
            if same(own.as_str(), name) {
                return i;
            }
            i += 1;
        }
        i
    }

    /// Adds a facet, unless one of its name is there.
    pub fn register(&mut self, facet: F) -> (r: Result<(), FacetError>)
        requires
            old(self).wf(),
        ensures
            final(self).wf(),
            (match r {
                Ok(_) => !facet_names(old(self).facets@).contains(facet.name_model()) && exists|
                    k: int,
                |
                    0 <= k <= old(self).facets@.len() && final(self).facets@
                        == #[trigger] old(self).facets@.insert(k, facet),
                Err(e) => facet_names(old(self).facets@).contains(facet.name_model())
                    && final(self).facets@ == old(self).facets@ && e@
                    == FacetErrorModel::Duplicate(facet.name_model()),
            }),
    {
        let name = facet.name();
        let ghost names = facet_names(self.facets@);
        let ghost before = self.facets@;
        proof {
            lemma_place_of(names, name@, 0);
        }
        if self.place(name.as_str()) < self.facets.len() {
            return Err(FacetError::Duplicate(name));
        }
        assert(!names.contains(name@));
        let mut k: usize = 0;
        while k < self.facets.len() && order::text_not_after(
            self.facets[k].name().as_str(),
            name.as_str(),
        )
            invariant
                k <= self.facets@.len(),
                self.facets@ == before,
                names == facet_names(before),
                forall|j: int| 0 <= j < k ==> order::text_le(#[trigger] names[j], name@),
            decreases self.facets@.len() - k,
        {
            assert(names[k as int] == self.facets@[k as int].name_model());
            k += 1;
        }
        proof {
            if k < before.len() {
                assert(names[k as int] == before[k as int].name_model());
                order::lemma_text_le_total(names[k as int], name@);
            }
            lemma_insert_name(names, k as int, name@);
        }
        let ghost added = facet;
        self.facets.insert(k, facet);
        proof {
            let now = facet_names(self.facets@);
            before.insert_ensures(k as int, added);
            names.insert_ensures(k as int, name@);
            assert(names.len() == before.len());
            assert(now.len() == names.len() + 1);
            assert forall|j: int| 0 <= j < now.len() implies now[j] == names.insert(
                k as int,
                name@,
            )[j] by {
                if j == k {
                    assert(self.facets@[j] == added);
                } else if j < k {
                    assert(self.facets@[j] == before[j]);
                } else {
                    assert(self.facets@[j] == before[j - 1]);
                }
            }
            assert(now =~= names.insert(k as int, name@));
        }
        Ok(())
    }

    pub fn contains(&self, name: &str) -> (r: bool)
        ensures
            r == facet_names(self.facets@).contains(name@),
    {
        proof {
            lemma_place_of(facet_names(self.facets@), name@, 0);
        }
        self.place(name) < self.facets.len()
    }

    /// The names of the facets, in order.
    pub fn names(&self) -> (r: Vec<FacetName>)
        ensures
            text::texts(r@) == facet_names(self.facets@),
    {
        let mut out: Vec<FacetName> = Vec::new();
        let mut i: usize = 0;
        while i < self.facets.len()
            invariant
                i <= self.facets@.len(),
                out@.len() == i,
                forall|j: int|
                    0 <= j < i ==> (#[trigger] out@[j])@ == self.facets@[j].name_model(),
            decreases self.facets@.len() - i,
        {
            out.push(self.facets[i].name());
            i += 1;
        }
        assert(text::texts(out@) =~= facet_names(self.facets@));
        out
    }

    /// The captures of all facets, in order; the first that fails ends it.
    pub fn capture_all(&self, ctx: &FacetCaptureCtx) -> (r: Result<Vec<FacetCapture>, FacetError>)
        ensures
            (match r {
                Ok(v) => v@.len() == self.facets@.len() && forall|i: int|
                    0 <= i < v@.len() ==> captures_as(self.facets@[i], ctx, Ok(#[trigger] v@[i])),
                Err(e) => exists|i: int|
                    0 <= i < self.facets@.len() && captures_as(
                        #[trigger] self.facets@[i],
                        ctx,
                        Err(e),
                    ) && forall|j: int|
                        0 <= j < i ==> can_capture(#[trigger] self.facets@[j], ctx),
            }),
    {
        let mut out: Vec<FacetCapture> = Vec::new();
        let mut i: usize = 0;
        while i < self.facets.len()
            invariant
                i <= self.facets@.len(),
                out@.len() == i,
                forall|j: int|
                    0 <= j < i ==> captures_as(self.facets@[j], ctx, Ok(#[trigger] out@[j])),
            decreases self.facets@.len() - i,
        {
            match self.facets[i].capture(ctx) {
                Ok(c) => {
                    assert(captures_as(self.facets@[i as int], ctx, Ok(c)));
                    out.push(c);
                },
                Err(e) => {
                    assert forall|j: int| 0 <= j < i implies can_capture(
                        #[trigger] self.facets@[j],
                        ctx,
                    ) by {
                        assert(captures_as(self.facets@[j], ctx, Ok(out@[j])));
                    }
                    assert(captures_as(self.facets@[i as int], ctx, Err(e)));
                    return Err(e);
                },
            }
            i += 1;
        }
        Ok(out)
    }

    pub fn validate_all(&self, captures: &[FacetCapture]) -> (r: Result<(), FacetError>)
        ensures
            judged(self.facets@, captures@, r),
    {
        let ghost m = capture_models(captures@);
        let mut i: usize = 0;
        while i < captures.len()
            invariant
                i <= captures@.len(),
                m == capture_models(captures@),
                first_fault(self.facets@, m, i as int) == first_fault(self.facets@, m, 0),
            decreases captures@.len() - i,
        {
            let c = &captures[i];
            assert(m[i as int] == c@);
            let k = self.place(c.facet.as_str());
            if k >= self.facets.len() {
                return Err(FacetError::Unregistered(c.facet.clone()));
            }
            let version = self.facets[k].schema_version();
            if c.schema_version != version {
                let mut t = joined(
                    "schema version ",
                    decimal_text(c.schema_version as u64).as_str(),
                );
                t.append(" does not match ");
                t.append(decimal_text(version as u64).as_str());
                return Err(FacetError::InvalidCapture(c.facet.clone(), t));
            }
            match self.facets[k].validate(c) {
                Ok(_) => {},
                Err(e) => {
                    assert(refuses_as(self.facets@[k as int], captures@[i as int], e));
                    return Err(e);
                },
            }
            i += 1;
        }
        Ok(())
    }

    /// A snapshot is fully restorable only when every captured facet is
    /// registered and each capture has a payload. Unknown facets fail closed.
    pub fn fully_restorable(&self, captures: &[FacetCapture]) -> (r: bool)
        ensures
            r == forall|i: int|
                0 <= i < captures@.len() ==> restorable(
                    self.facets@,
                    (#[trigger] captures@[i])@,
                ),
    {
        let ghost m = capture_models(captures@);
        proof {
            lemma_first_fault(self.facets@, m, 0);
        }
        if self.validate_all(captures).is_err() {
            proof {
                let k = first_fault(self.facets@, m, 0);
                assert(m[k] == captures@[k]@);
                assert(!restorable(self.facets@, captures@[k]@));
            }
            return false;
        }
        let mut i: usize = 0;
        while i < captures.len()
            invariant
                i <= captures@.len(),
                m == capture_models(captures@),
                first_fault(self.facets@, m, 0) == m.len(),
                forall|j: int|
                    0 <= j < m.len() ==> fault_of(self.facets@, #[trigger] m[j]) is None,
                forall|j: int|
                    0 <= j < i ==> restorable(self.facets@, (#[trigger] captures@[j])@),
            decreases captures@.len() - i,
        {
            let c = &captures[i];
            assert(m[i as int] == c@);
            let k = self.place(c.facet.as_str());
            assert(k < self.facets@.len());
            if c.payload_oid.is_none() || self.facets[k].restore_policy()
                == RestorePolicy::NeverRestore {
                assert(!restorable(self.facets@, captures@[i as int]@));
                return false;
            }
            i += 1;
        }
        true
    }

    /// The objects that the captures refer to.
    pub fn roots(&self, captures: &[FacetCapture]) -> (r: Result<Vec<Oid>, FacetError>)
        ensures
            (match r {
                Ok(v) => judged(self.facets@, captures@, Ok(())) && oid_texts(v@)
                    == all_roots(self.facets@, capture_models(captures@)),
                Err(e) => judged(self.facets@, captures@, Err(e)),
            }),
    {
        let ghost m = capture_models(captures@);
        match self.validate_all(captures) {
            Ok(_) => {},
            Err(e) => {
                return Err(e);
            },
        }
        proof {
            lemma_first_fault(self.facets@, m, 0);
        }
        let mut out: Vec<Oid> = Vec::new();
        let mut i: usize = 0;
        assert(oid_texts(out@) =~= all_roots(self.facets@, m.take(0)));
        while i < captures.len()
            invariant
                i <= captures@.len(),
                m == capture_models(captures@),
                forall|j: int|
                    0 <= j < m.len() ==> fault_of(self.facets@, #[trigger] m[j]) is None,
                oid_texts(out@) == all_roots(self.facets@, m.take(i as int)),
            decreases captures@.len() - i,
        {
            let c = &captures[i];
            assert(m[i as int] == c@);
            assert(m.take(i + 1).drop_last() =~= m.take(i as int));
            let k = self.place(c.facet.as_str());
            let ghost before = oid_texts(out@);
            let mut own = self.facets[k].roots(c);
            let ghost own_texts = oid_texts(own@);
            out.append(&mut own);
            assert(oid_texts(out@) =~= before + own_texts);
            i += 1;
        }
        assert(m.take(i as int) =~= m);
        Ok(out)
    }
}

pub proof fn lemma_insert_name(names: Seq<Seq<char>>, k: int, name: Seq<char>)
    requires
        strictly_ordered(names),
        0 <= k <= names.len(),
        !names.contains(name),
        forall|j: int| 0 <= j < k ==> order::text_le(#[trigger] names[j], name),
        k < names.len() ==> order::text_le(name, names[k]),
    ensures
        strictly_ordered(names.insert(k, name)),
{
    let n = names.insert(k, name);
    assert forall|i: int, j: int| 0 <= i < j < n.len() implies order::text_le(
        #[trigger] n[i],
        #[trigger] n[j],
    ) && n[i] != n[j] by {
        if j == k {
            assert(n[i] == names[i]);
            assert(names.contains(names[i]));
        } else if i == k {
            assert(n[j] == names[j - 1]);
            assert(names.contains(names[j - 1]));
            if j - 1 > k {
                order::lemma_text_le_trans(name, names[k], names[j - 1]);
            }
        } else {
            let a = if i < k {
                i
            } else {
                i - 1
            };
            let b = if j < k {
                j
            } else {
                j - 1
            };
            assert(n[i] == names[a]);
            assert(n[j] == names[b]);
        }
    }
}

/// A capture of a facet that is not registered makes a snapshot not fully
/// restorable, whatever else it holds.
pub proof fn law_unknown_facet_fails_closed<F: StateFacet>(facets: Seq<F>, c: CaptureModel)
    requires
        !facet_names(facets).contains(c.facet),
    ensures
        fault_of(facets, c) == Some(CaptureFault::Unregistered),
        !restorable(facets, c),
{
    lemma_place_of(facet_names(facets), c.facet, 0);
}

/// What is never restored keeps a snapshot from being fully restorable, and so
/// does a capture without an object.
pub proof fn law_only_restorable_captures_restore<F: StateFacet>(facets: Seq<F>, c: CaptureModel)
    requires
        restorable(facets, c),
    ensures
        facet_names(facets).contains(c.facet),
        c.payload_oid is Some,
        exists|i: int|
            0 <= i < facets.len() && (#[trigger] facets[i]).name_model() == c.facet
                && !(facets[i].policy_model() is NeverRestore),
{
    lemma_place_of(facet_names(facets), c.facet, 0);
    let k = place_of(facet_names(facets), c.facet, 0);
    assert(facet_names(facets)[k] == facets[k].name_model());
}

} // verus!
