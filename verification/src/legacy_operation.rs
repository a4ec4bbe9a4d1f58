//! Operation records: what is stored of a command, and how it is read back.
//!
//! The database itself is the caller's. Each request is checked here and
//! becomes a statement with its values; the rows that come back become
//! records here. Two layouts are in use: one whose `operation` table has a
//! `view_id` column, and version 2, which keeps the view in the journal.

use vstd::prelude::*;
use vstd::string::*;

use crate::legacy_statements;
use crate::operation::store::{copy_text, joined};
use crate::order;
use crate::sql;
use crate::sql::{QueryModel, SqlModel, SqlQuery};
use crate::text;
use crate::text::{blank, chars_of, same, text_of, trimmed};

verus! {

#[derive(Debug)]
pub enum OperationServiceError {
    InvalidArgument(String),
    Storage(String),
    Internal(String),
}

/// What an [`OperationServiceError`] says.
pub enum ServiceErrorModel {
    InvalidArgument(Seq<char>),
    Storage(Seq<char>),
    Internal(Seq<char>),
}

impl View for OperationServiceError {
    type V = ServiceErrorModel;

    open spec fn view(&self) -> ServiceErrorModel {
        match self {
            OperationServiceError::InvalidArgument(m) => ServiceErrorModel::InvalidArgument(m@),
            OperationServiceError::Storage(m) => ServiceErrorModel::Storage(m@),
            OperationServiceError::Internal(m) => ServiceErrorModel::Internal(m@),
        }
    }
}

impl ServiceErrorModel {
    /// The sentence that reports the error.
    pub open spec fn message(self) -> Seq<char> {
        match self {
            ServiceErrorModel::InvalidArgument(m) => "invalid operation argument: "@ + m,
            ServiceErrorModel::Storage(m) => "operation storage error: "@ + m,
            ServiceErrorModel::Internal(m) => "operation internal error: "@ + m,
        }
    }
}

impl OperationServiceError {
    /// The sentence that reports the error.
    pub fn message(&self) -> (r: String)
        ensures
            r@ == self@.message(),
    {
        match self {
            OperationServiceError::InvalidArgument(m) => joined(
                "invalid operation argument: ",
                m.as_str(),
            ),
            OperationServiceError::Storage(m) => joined("operation storage error: ", m.as_str()),
            OperationServiceError::Internal(m) => joined("operation internal error: ", m.as_str()),
        }
    }
}

fn invalid(message: &str) -> (r: OperationServiceError)
    ensures
        r@ == ServiceErrorModel::InvalidArgument(message@),
{
    OperationServiceError::InvalidArgument(message.to_owned())
}

/// `Ok` where there is no fault, else the fault as an invalid argument.
pub open spec fn is_verdict(r: Result<(), OperationServiceError>, fault: Option<Seq<char>>) -> bool {
    match r {
        Ok(_) => fault is None,
        Err(e) => match fault {
            Some(m) => e@ == ServiceErrorModel::InvalidArgument(m),
            None => false,
        },
    }
}

//// Status

/// Stable status of an operation record.
#[derive(Debug, Clone, Copy, PartialEq, Eq, Structural)]
pub enum OperationStatus {
    Running,
    Succeeded,
    Failed,
    Canceled,
}

impl OperationStatus {
    /// The status as it appears in messages and storage.
    pub open spec fn name(self) -> Seq<char> {
        match self {
            OperationStatus::Running => "running"@,
            OperationStatus::Succeeded => "succeeded"@,
            OperationStatus::Failed => "failed"@,
            OperationStatus::Canceled => "canceled"@,
        }
    }

    /// The status that a stored name stands for.
    pub open spec fn named(s: Seq<char>) -> Option<OperationStatus> {
        if s == "running"@ {
            Some(OperationStatus::Running)
        } else if s == "succeeded"@ {
            Some(OperationStatus::Succeeded)
        } else if s == "failed"@ {
            Some(OperationStatus::Failed)
        } else if s == "canceled"@ {
            Some(OperationStatus::Canceled)
        } else {
            None
        }
    }

    /// The status as version 2 stores it.
    pub open spec fn v2_name(self) -> Seq<char> {
        match self {
            OperationStatus::Running => "running"@,
            OperationStatus::Succeeded => "success"@,
            OperationStatus::Failed => "failed"@,
            OperationStatus::Canceled => "aborted"@,
        }
    }

    /// The status that a name of version 2 stands for.
    pub open spec fn v2_named(s: Seq<char>) -> Option<OperationStatus> {
        if s == "running"@ {
            Some(OperationStatus::Running)
        } else if s == "success"@ || s == "succeeded"@ {
            Some(OperationStatus::Succeeded)
        } else if s == "failed"@ || s == "partial"@ {
            Some(OperationStatus::Failed)
        } else if s == "aborted"@ || s == "canceled"@ {
            Some(OperationStatus::Canceled)
        } else {
            None
        }
    }

    /// The status as it appears in messages and storage.
    pub fn as_str(self) -> (r: &'static str)
        ensures
            r@ == self.name(),
    {
        match self {
            OperationStatus::Running => "running",
            OperationStatus::Succeeded => "succeeded",
            OperationStatus::Failed => "failed",
            OperationStatus::Canceled => "canceled",
        }
    }

    pub fn from_db_value(value: &str) -> (r: Result<Self, OperationServiceError>)
        ensures
            (match r {
                Ok(s) => OperationStatus::named(value@) == Some(s),
                Err(e) => OperationStatus::named(value@) is None && e@
                    == ServiceErrorModel::Internal(
                    "unknown operation status value in storage: "@ + value@,
                ),
            }),
    {
        if same(value, "running") {
            Ok(OperationStatus::Running)
        } else if same(value, "succeeded") {
            Ok(OperationStatus::Succeeded)
        } else if same(value, "failed") {
            Ok(OperationStatus::Failed)
        } else if same(value, "canceled") {
            Ok(OperationStatus::Canceled)
        } else {
            Err(
                OperationServiceError::Internal(
                    joined("unknown operation status value in storage: ", value),
                ),
            )
        }
    }
}

pub fn operation_status_from_v2(value: &str) -> (r: Result<OperationStatus, OperationServiceError>)
    ensures
        (match r {
            Ok(s) => OperationStatus::v2_named(value@) == Some(s),
            Err(e) => OperationStatus::v2_named(value@) is None && e@
                == ServiceErrorModel::Internal(
                "unknown v2 operation status value in storage: "@ + value@,
            ),
        }),
{
    if same(value, "running") {
        Ok(OperationStatus::Running)
    } else if same(value, "success") || same(value, "succeeded") {
        Ok(OperationStatus::Succeeded)
    } else if same(value, "failed") || same(value, "partial") {
        Ok(OperationStatus::Failed)
    } else if same(value, "aborted") || same(value, "canceled") {
        Ok(OperationStatus::Canceled)
    } else {
        Err(
            OperationServiceError::Internal(
                joined("unknown v2 operation status value in storage: ", value),
            ),
        )
    }
}

pub fn operation_status_to_v2(status: OperationStatus) -> (r: &'static str)
    ensures
        r@ == status.v2_name(),
{
    match status {
        OperationStatus::Running => "running",
        OperationStatus::Succeeded => "success",
        OperationStatus::Failed => "failed",
        OperationStatus::Canceled => "aborted",
    }
}

proof fn reveal_status_names()
    ensures
        "running"@.len() == 7,
        "running"@[0] == 'r',
        "succeeded"@.len() == 9,
        "success"@.len() == 7,
        "success"@[0] == 's',
        "failed"@.len() == 6,
        "partial"@.len() == 7,
        "partial"@[0] == 'p',
        "aborted"@.len() == 7,
        "aborted"@[0] == 'a',
        "canceled"@.len() == 8,
{
    reveal_strlit("running");
    reveal_strlit("succeeded");
    reveal_strlit("success");
    reveal_strlit("failed");
    reveal_strlit("partial");
    reveal_strlit("aborted");
    reveal_strlit("canceled");
}

/// A status that was written is read back, in either layout; version 2 also
/// reads the names of the other layout.
pub proof fn law_status_round_trip(s: OperationStatus)
    ensures
        OperationStatus::named(s.name()) == Some(s),
        OperationStatus::v2_named(s.v2_name()) == Some(s),
        OperationStatus::v2_named(s.name()) == Some(s),
{
    reveal_status_names();
}

//// Records

/// Immutable operation record payload.
#[derive(Debug, Clone, PartialEq, Eq)]
pub struct OperationRecord {
    pub op_id: String,
    pub repo_id: String,
    pub view_id: String,
    pub command_name: String,
    pub description: String,
    pub actor: String,
    pub args_digest: Option<String>,
    pub start_ts: i64,
    pub end_ts: Option<i64>,
    pub status: OperationStatus,
    /// Worktree scope the operation ran in: main is empty, a linked worktree
    /// has its stable instance id.
    pub worktree_id: String,
    /// How `worktree_id` came to hold its value.
    pub scope_provenance: String,
    /// Whether the operation may be replayed by a restore.
    pub restorable: bool,
    /// Set while this row holds its worktree's single control slot.
    pub control_slot: Option<String>,
    /// The host and process that hold a running claim.
    pub claim_owner: Option<String>,
    /// `main`, `linked`, `repository` or `unknown`.
    pub scope_kind: String,
}

/// What an [`OperationRecord`] says.
#[verifier::ext_equal]
pub struct RecordModel {
    pub op_id: Seq<char>,
    pub repo_id: Seq<char>,
    pub view_id: Seq<char>,
    pub command_name: Seq<char>,
    pub description: Seq<char>,
    pub actor: Seq<char>,
    pub args_digest: Option<Seq<char>>,
    pub start_ts: i64,
    pub end_ts: Option<i64>,
    pub status: OperationStatus,
    pub worktree_id: Seq<char>,
    pub scope_provenance: Seq<char>,
    pub restorable: bool,
    pub control_slot: Option<Seq<char>>,
    pub claim_owner: Option<Seq<char>>,
    pub scope_kind: Seq<char>,
}

impl View for OperationRecord {
    type V = RecordModel;

    open spec fn view(&self) -> RecordModel {
        RecordModel {
            op_id: self.op_id@,
            repo_id: self.repo_id@,
            view_id: self.view_id@,
            command_name: self.command_name@,
            description: self.description@,
            actor: self.actor@,
            args_digest: text::opt_text(self.args_digest),
            start_ts: self.start_ts,
            end_ts: self.end_ts,
            status: self.status,
            worktree_id: self.worktree_id@,
            scope_provenance: self.scope_provenance@,
            restorable: self.restorable,
            control_slot: text::opt_text(self.control_slot),
            claim_owner: text::opt_text(self.claim_owner),
            scope_kind: self.scope_kind@,
        }
    }
}

/// Parent edge for operation lineage.
#[derive(Debug, Clone, PartialEq, Eq)]
pub struct OperationParentRecord {
    pub op_id: String,
    pub parent_op_id: String,
}

/// What an [`OperationParentRecord`] says.
#[verifier::ext_equal]
pub struct ParentModel {
    pub op_id: Seq<char>,
    pub parent_op_id: Seq<char>,
}

impl View for OperationParentRecord {
    type V = ParentModel;

    open spec fn view(&self) -> ParentModel {
        ParentModel { op_id: self.op_id@, parent_op_id: self.parent_op_id@ }
    }
}

/// Snapshot header for one operation view.
#[derive(Debug, Clone, PartialEq, Eq)]
pub struct OperationViewRecord {
    pub view_id: String,
    pub repo_id: String,
    pub head_kind: String,
    pub head_target: String,
    pub created_at: i64,
}

/// What an [`OperationViewRecord`] says.
#[verifier::ext_equal]
pub struct ViewModel {
    pub view_id: Seq<char>,
    pub repo_id: Seq<char>,
    pub head_kind: Seq<char>,
    pub head_target: Seq<char>,
    pub created_at: i64,
}

impl View for OperationViewRecord {
    type V = ViewModel;

    open spec fn view(&self) -> ViewModel {
        ViewModel {
            view_id: self.view_id@,
            repo_id: self.repo_id@,
            head_kind: self.head_kind@,
            head_target: self.head_target@,
            created_at: self.created_at,
        }
    }
}

/// A reference under one operation view.
#[derive(Debug, Clone, PartialEq, Eq)]
pub struct OperationViewRefRecord {
    pub view_id: String,
    pub ref_kind: String,
    pub ref_name: String,
    pub ref_remote: Option<String>,
    pub target_oid: String,
}

/// What an [`OperationViewRefRecord`] says.
#[verifier::ext_equal]
pub struct ViewRefModel {
    pub view_id: Seq<char>,
    pub ref_kind: Seq<char>,
    pub ref_name: Seq<char>,
    pub ref_remote: Option<Seq<char>>,
    pub target_oid: Seq<char>,
}

impl View for OperationViewRefRecord {
    type V = ViewRefModel;

    open spec fn view(&self) -> ViewRefModel {
        ViewRefModel {
            view_id: self.view_id@,
            ref_kind: self.ref_kind@,
            ref_name: self.ref_name@,
            ref_remote: text::opt_text(self.ref_remote),
            target_oid: self.target_oid@,
        }
    }
}

/// A workspace pointer under one operation view.
#[derive(Debug, Clone, PartialEq, Eq)]
pub struct OperationViewWorkspaceRecord {
    pub view_id: String,
    pub pointer_kind: String,
    pub pointer_value: String,
}

/// What an [`OperationViewWorkspaceRecord`] says.
#[verifier::ext_equal]
pub struct ViewWorkspaceModel {
    pub view_id: Seq<char>,
    pub pointer_kind: Seq<char>,
    pub pointer_value: Seq<char>,
}

impl View for OperationViewWorkspaceRecord {
    type V = ViewWorkspaceModel;

    open spec fn view(&self) -> ViewWorkspaceModel {
        ViewWorkspaceModel {
            view_id: self.view_id@,
            pointer_kind: self.pointer_kind@,
            pointer_value: self.pointer_value@,
        }
    }
}

/// Aggregated operation graph.
#[derive(Debug, Clone, PartialEq, Eq)]
pub struct OperationGraphRecord {
    pub operation: OperationRecord,
    pub parents: Vec<OperationParentRecord>,
    pub view: OperationViewRecord,
    pub refs: Vec<OperationViewRefRecord>,
    pub workspace: Vec<OperationViewWorkspaceRecord>,
}

/// What an [`OperationGraphRecord`] says.
#[verifier::ext_equal]
pub struct GraphModel {
    pub operation: RecordModel,
    pub parents: Seq<ParentModel>,
    pub view: ViewModel,
    pub refs: Seq<ViewRefModel>,
    pub workspace: Seq<ViewWorkspaceModel>,
}

impl View for OperationGraphRecord {
    type V = GraphModel;

    open spec fn view(&self) -> GraphModel {
        GraphModel {
            operation: self.operation@,
            parents: order::views(self.parents@),
            view: self.view@,
            refs: order::views(self.refs@),
            workspace: order::views(self.workspace@),
        }
    }
}

/// Lightweight operation list item.
#[derive(Debug, Clone, PartialEq, Eq)]
pub struct OperationLogListItem {
    pub op_id: String,
    pub command_name: String,
    pub description: String,
    pub actor: String,
    pub end_ts: Option<i64>,
    pub status: OperationStatus,
}

/// What an [`OperationLogListItem`] says.
#[verifier::ext_equal]
pub struct LogItemModel {
    pub op_id: Seq<char>,
    pub command_name: Seq<char>,
    pub description: Seq<char>,
    pub actor: Seq<char>,
    pub end_ts: Option<i64>,
    pub status: OperationStatus,
}

impl View for OperationLogListItem {
    type V = LogItemModel;

    open spec fn view(&self) -> LogItemModel {
        LogItemModel {
            op_id: self.op_id@,
            command_name: self.command_name@,
            description: self.description@,
            actor: self.actor@,
            end_ts: self.end_ts,
            status: self.status,
        }
    }
}

impl RecordModel {
    /// The list item for a record.
    pub open spec fn log_item(self) -> LogItemModel {
        LogItemModel {
            op_id: self.op_id,
            command_name: self.command_name,
            description: self.description,
            actor: self.actor,
            end_ts: self.end_ts,
            status: self.status,
        }
    }
}

//// Pages

/// Generic pagination request.
#[derive(Debug, Clone, Copy, PartialEq, Eq, Structural)]
pub struct OperationQueryPage {
    pub page: u64,
    pub per_page: u64,
}

impl Default for OperationQueryPage {
    fn default() -> (r: Self)
        ensures
            r.page == 1,
            r.per_page == OperationQueryPage::DEFAULT_PER_PAGE,
    {
        OperationQueryPage { page: 1, per_page: Self::DEFAULT_PER_PAGE }
    }
}

impl OperationQueryPage {
    pub const DEFAULT_PER_PAGE: u64 = 50;

    pub const MAX_PER_PAGE: u64 = 200;

    /// The request within the limits: pages count from one, and a page holds
    /// the default where no size is given, at most the maximum else.
    pub open spec fn within_limits(self) -> OperationQueryPage {
        OperationQueryPage {
            page: if self.page == 0 {
                1
            } else {
                self.page
            },
            per_page: if self.per_page == 0 {
                Self::DEFAULT_PER_PAGE
            } else if self.per_page > Self::MAX_PER_PAGE {
                Self::MAX_PER_PAGE
            } else {
                self.per_page
            },
        }
    }

    /// How many entries stand before the page.
    pub open spec fn entries_before(self) -> int {
        let n = self.within_limits();
        (n.page - 1) * n.per_page
    }

    /// Clamp invalid pagination input into a safe query range.
    pub fn normalized(self) -> (r: Self)
        ensures
            r == self.within_limits(),
    {
        let page = if self.page == 0 {
            1
        } else {
            self.page
        };
        let per_page = if self.per_page == 0 {
            Self::DEFAULT_PER_PAGE
        } else if self.per_page > Self::MAX_PER_PAGE {
            Self::MAX_PER_PAGE
        } else {
            self.per_page
        };
        OperationQueryPage { page, per_page }
    }

    pub fn offset(self) -> (r: u64)
        requires
            self.entries_before() <= u64::MAX,
        ensures
            r == self.entries_before(),
    {
        let normalized = self.normalized();
        assert((normalized.page - 1) * normalized.per_page >= 0) by (nonlinear_arith)
            requires
                normalized.page >= 1,
                normalized.per_page >= 0,
        ;
        (normalized.page - 1) * normalized.per_page
    }
}

/// A normalized request is within the limits, and normalizing it again changes
/// nothing.
pub proof fn law_normalized_is_stable(q: OperationQueryPage)
    ensures
        q.within_limits().within_limits() == q.within_limits(),
        q.within_limits().page >= 1,
        1 <= q.within_limits().per_page <= OperationQueryPage::MAX_PER_PAGE,
{
}

/// Each page starts where the page before it ends.
pub proof fn law_pages_are_contiguous(page: u64, per_page: u64)
    requires
        1 <= page < u64::MAX,
    ensures
        (OperationQueryPage { page: (page + 1) as u64, per_page }).entries_before() == (
        OperationQueryPage { page, per_page }).entries_before() + (OperationQueryPage {
            page,
            per_page,
        }).within_limits().per_page,
        (OperationQueryPage { page: 1, per_page }).entries_before() == 0,
{
    let size = (OperationQueryPage { page, per_page }).within_limits().per_page;
    assert(page * size == (page - 1) * size + size) by (nonlinear_arith);
    assert(0 * size == 0) by (nonlinear_arith);
}

/// Generic paginated response.
#[derive(Debug, Clone, PartialEq, Eq)]
pub struct OperationPage<T> {
    pub items: Vec<T>,
    pub page: u64,
    pub per_page: u64,
    pub total: u64,
}

/// Checks of records, and pages of them.
#[derive(Debug, Default)]
pub struct OperationService;

//// Checks

impl RecordModel {
    /// What is wrong with a record, where anything is.
    pub open spec fn fault(self) -> Option<Seq<char>> {
        if text::is_blank(self.op_id) {
            Some("op_id must not be empty"@)
        } else if text::is_blank(self.repo_id) {
            Some("repo_id must not be empty"@)
        } else if text::is_blank(self.command_name) {
            Some("command_name must not be empty"@)
        } else if self.start_ts < 0 {
            Some("start_ts must be a unix timestamp in seconds"@)
        } else if self.end_ts is Some && self.end_ts->0 < self.start_ts {
            Some("end_ts must be greater than or equal to start_ts"@)
        } else {
            None
        }
    }
}

impl ParentModel {
    /// What is wrong with a parent edge, where anything is.
    pub open spec fn fault(self) -> Option<Seq<char>> {
        if text::is_blank(self.op_id) {
            Some("op_id must not be empty"@)
        } else if text::is_blank(self.parent_op_id) {
            Some("parent_op_id must not be empty"@)
        } else if self.op_id == self.parent_op_id {
            Some("op_id must not equal parent_op_id"@)
        } else {
            None
        }
    }
}

impl ViewModel {
    /// What is wrong with a view, where anything is.
    pub open spec fn fault(self) -> Option<Seq<char>> {
        if text::is_blank(self.view_id) {
            Some("view_id must not be empty"@)
        } else if text::is_blank(self.repo_id) {
            Some("repo_id must not be empty"@)
        } else if text::is_blank(self.head_kind) {
            Some("head_kind must not be empty"@)
        } else if text::is_blank(self.head_target) {
            Some("head_target must not be empty"@)
        } else if self.created_at < 0 {
            Some("created_at must be a unix timestamp in seconds"@)
        } else {
            None
        }
    }
}

impl ViewRefModel {
    /// What is wrong with a reference, where anything is.
    pub open spec fn fault(self) -> Option<Seq<char>> {
        if text::is_blank(self.view_id) {
            Some("view_id must not be empty"@)
        } else if text::is_blank(self.ref_kind) {
            Some("ref_kind must not be empty"@)
        } else if text::is_blank(self.ref_name) {
            Some("ref_name must not be empty"@)
        } else if text::is_blank(self.target_oid) {
            Some("target_oid must not be empty"@)
        } else {
            None
        }
    }
}

impl ViewWorkspaceModel {
    /// What is wrong with a workspace pointer, where anything is.
    pub open spec fn fault(self) -> Option<Seq<char>> {
        if text::is_blank(self.view_id) {
            Some("view_id must not be empty"@)
        } else if text::is_blank(self.pointer_kind) {
            Some("pointer_kind must not be empty"@)
        } else if text::is_blank(self.pointer_value) {
            Some("pointer_value must not be empty"@)
        } else {
            None
        }
    }
}

/// The first fault of parent edges that shall all belong to `op_id`.
pub open spec fn parents_fault(s: Seq<ParentModel>, op_id: Seq<char>) -> Option<Seq<char>>
    decreases s.len(),
{
    if s.len() == 0 {
        None
    } else if s[0].fault() is Some {
        s[0].fault()
    } else if s[0].op_id != op_id {
        Some("all parent edges must belong to operation.op_id"@)
    } else {
        parents_fault(s.drop_first(), op_id)
    }
}

/// The first fault of references that shall all stand under `view_id`;
/// `foreign` is the fault of one that does not.
pub open spec fn refs_fault(
    s: Seq<ViewRefModel>,
    view_id: Seq<char>,
    foreign: Seq<char>,
) -> Option<Seq<char>>
    decreases s.len(),
{
    if s.len() == 0 {
        None
    } else if s[0].fault() is Some {
        s[0].fault()
    } else if s[0].view_id != view_id {
        Some(foreign)
    } else {
        refs_fault(s.drop_first(), view_id, foreign)
    }
}

/// The first fault of workspace pointers that shall all stand under `view_id`.
pub open spec fn workspace_fault(s: Seq<ViewWorkspaceModel>, view_id: Seq<char>) -> Option<
    Seq<char>,
>
    decreases s.len(),
{
    if s.len() == 0 {
        None
    } else if s[0].fault() is Some {
        s[0].fault()
    } else if s[0].view_id != view_id {
        Some("all workspace snapshots must belong to view.view_id"@)
    } else {
        workspace_fault(s.drop_first(), view_id)
    }
}

impl GraphModel {
    /// What is wrong with a graph, where anything is: its records, then what
    /// ties them together.
    pub open spec fn fault(self) -> Option<Seq<char>> {
        if self.operation.fault() is Some {
            self.operation.fault()
        } else if self.view.fault() is Some {
            self.view.fault()
        } else if self.operation.view_id != self.view.view_id {
            Some("operation.view_id must equal view.view_id"@)
        } else if self.operation.repo_id != self.view.repo_id {
            Some("operation.repo_id must equal view.repo_id"@)
        } else if parents_fault(self.parents, self.operation.op_id) is Some {
            parents_fault(self.parents, self.operation.op_id)
        } else if refs_fault(
            self.refs,
            self.view.view_id,
            "all view refs must belong to view.view_id"@,
        ) is Some {
            refs_fault(self.refs, self.view.view_id, "all view refs must belong to view.view_id"@)
        } else {
            workspace_fault(self.workspace, self.view.view_id)
        }
    }
}

impl OperationService {
    pub fn validate_record(record: &OperationRecord) -> (r: Result<(), OperationServiceError>)
        ensures
            is_verdict(r, record@.fault()),
    {
        if blank(record.op_id.as_str()) {
            return Err(invalid("op_id must not be empty"));
        }
        if blank(record.repo_id.as_str()) {
            return Err(invalid("repo_id must not be empty"));
        }
        if blank(record.command_name.as_str()) {
            return Err(invalid("command_name must not be empty"));
        }
        if record.start_ts < 0 {
            return Err(invalid("start_ts must be a unix timestamp in seconds"));
        }
        if let Some(end_ts) = record.end_ts {
            if end_ts < record.start_ts {
                return Err(invalid("end_ts must be greater than or equal to start_ts"));
            }
        }
        Ok(())
    }

    pub fn validate_parent_record(record: &OperationParentRecord) -> (r: Result<
        (),
        OperationServiceError,
    >)
        ensures
            is_verdict(r, record@.fault()),
    {
        if blank(record.op_id.as_str()) {
            return Err(invalid("op_id must not be empty"));
        }
        if blank(record.parent_op_id.as_str()) {
            return Err(invalid("parent_op_id must not be empty"));
        }
        if same(record.op_id.as_str(), record.parent_op_id.as_str()) {
            return Err(invalid("op_id must not equal parent_op_id"));
        }
        Ok(())
    }

    pub fn validate_view_record(record: &OperationViewRecord) -> (r: Result<
        (),
        OperationServiceError,
    >)
        ensures
            is_verdict(r, record@.fault()),
    {
        if blank(record.view_id.as_str()) {
            return Err(invalid("view_id must not be empty"));
        }
        if blank(record.repo_id.as_str()) {
            return Err(invalid("repo_id must not be empty"));
        }
        if blank(record.head_kind.as_str()) {
            return Err(invalid("head_kind must not be empty"));
        }
        if blank(record.head_target.as_str()) {
            return Err(invalid("head_target must not be empty"));
        }
        if record.created_at < 0 {
            return Err(invalid("created_at must be a unix timestamp in seconds"));
        }
        Ok(())
    }

    pub fn validate_view_ref_record(record: &OperationViewRefRecord) -> (r: Result<
        (),
        OperationServiceError,
    >)
        ensures
            is_verdict(r, record@.fault()),
    {
        if blank(record.view_id.as_str()) {
            return Err(invalid("view_id must not be empty"));
        }
        if blank(record.ref_kind.as_str()) {
            return Err(invalid("ref_kind must not be empty"));
        }
        if blank(record.ref_name.as_str()) {
            return Err(invalid("ref_name must not be empty"));
        }
        if blank(record.target_oid.as_str()) {
            return Err(invalid("target_oid must not be empty"));
        }
        Ok(())
    }

    pub fn validate_view_workspace_record(record: &OperationViewWorkspaceRecord) -> (r: Result<
        (),
        OperationServiceError,
    >)
        ensures
            is_verdict(r, record@.fault()),
    {
        if blank(record.view_id.as_str()) {
            return Err(invalid("view_id must not be empty"));
        }
        if blank(record.pointer_kind.as_str()) {
            return Err(invalid("pointer_kind must not be empty"));
        }
        if blank(record.pointer_value.as_str()) {
            return Err(invalid("pointer_value must not be empty"));
        }
        Ok(())
    }

    fn validate_parents(parents: &[OperationParentRecord], op_id: &str) -> (r: Result<
        (),
        OperationServiceError,
    >)
        ensures
            is_verdict(r, parents_fault(order::views(parents@), op_id@)),
    {
        let ghost m = order::views(parents@);
        let mut i: usize = 0;
        assert(m.skip(0) =~= m);
        while i < parents.len()
            invariant
                i <= parents@.len(),
                m == order::views(parents@),
                parents_fault(m.skip(i as int), op_id@) == parents_fault(m, op_id@),
            decreases parents@.len() - i,
        {
            assert(m.skip(i as int)[0] == parents@[i as int]@);
            assert(m.skip(i as int).drop_first() =~= m.skip(i + 1));
            Self::validate_parent_record(&parents[i])?;
            if !same(parents[i].op_id.as_str(), op_id) {
                return Err(invalid("all parent edges must belong to operation.op_id"));
            }
            i += 1;
        }
        Ok(())
    }

    /// Checks references that shall all stand under `view_id`; `foreign` is
    /// the fault of one that does not.
    pub fn validate_refs(refs: &[OperationViewRefRecord], view_id: &str, foreign: &str) -> (r:
        Result<(), OperationServiceError>)
        ensures
            is_verdict(r, refs_fault(order::views(refs@), view_id@, foreign@)),
    {
        let ghost m = order::views(refs@);
        let mut i: usize = 0;
        assert(m.skip(0) =~= m);
        while i < refs.len()
            invariant
                i <= refs@.len(),
                m == order::views(refs@),
                refs_fault(m.skip(i as int), view_id@, foreign@) == refs_fault(
                    m,
                    view_id@,
                    foreign@,
                ),
            decreases refs@.len() - i,
        {
            assert(m.skip(i as int)[0] == refs@[i as int]@);
            assert(m.skip(i as int).drop_first() =~= m.skip(i + 1));
            Self::validate_view_ref_record(&refs[i])?;
            if !same(refs[i].view_id.as_str(), view_id) {
                return Err(invalid(foreign));
            }
            i += 1;
        }
        Ok(())
    }

    fn validate_workspace(workspace: &[OperationViewWorkspaceRecord], view_id: &str) -> (r: Result<
        (),
        OperationServiceError,
    >)
        ensures
            is_verdict(r, workspace_fault(order::views(workspace@), view_id@)),
    {
        let ghost m = order::views(workspace@);
        let mut i: usize = 0;
        assert(m.skip(0) =~= m);
        while i < workspace.len()
            invariant
                i <= workspace@.len(),
                m == order::views(workspace@),
                workspace_fault(m.skip(i as int), view_id@) == workspace_fault(m, view_id@),
            decreases workspace@.len() - i,
        {
            assert(m.skip(i as int)[0] == workspace@[i as int]@);
            assert(m.skip(i as int).drop_first() =~= m.skip(i + 1));
            Self::validate_view_workspace_record(&workspace[i])?;
            if !same(workspace[i].view_id.as_str(), view_id) {
                return Err(invalid("all workspace snapshots must belong to view.view_id"));
            }
            i += 1;
        }
        Ok(())
    }

    pub fn validate_graph_record(graph: &OperationGraphRecord) -> (r: Result<
        (),
        OperationServiceError,
    >)
        ensures
            is_verdict(r, graph@.fault()),
    {
        Self::validate_record(&graph.operation)?;
        Self::validate_view_record(&graph.view)?;
        if !same(graph.operation.view_id.as_str(), graph.view.view_id.as_str()) {
            return Err(invalid("operation.view_id must equal view.view_id"));
        }
        if !same(graph.operation.repo_id.as_str(), graph.view.repo_id.as_str()) {
            return Err(invalid("operation.repo_id must equal view.repo_id"));
        }
        Self::validate_parents(graph.parents.as_slice(), graph.operation.op_id.as_str())?;
        Self::validate_refs(
            graph.refs.as_slice(),
            graph.view.view_id.as_str(),
            "all view refs must belong to view.view_id",
        )?;
        Self::validate_workspace(graph.workspace.as_slice(), graph.view.view_id.as_str())
    }

    pub fn normalize_query_page(query: OperationQueryPage) -> (r: OperationQueryPage)
        ensures
            r == query.within_limits(),
    {
        query.normalized()
    }

    pub fn new_page<T>(items: Vec<T>, query: OperationQueryPage, total: u64) -> (r: OperationPage<
        T,
    >)
        ensures
            r.items == items,
            r.page == query.within_limits().page,
            r.per_page == query.within_limits().per_page,
            r.total == total,
    {
        let normalized = query.normalized();
        OperationPage { items, page: normalized.page, per_page: normalized.per_page, total }
    }
}

proof fn lemma_parents_tied(s: Seq<ParentModel>, op_id: Seq<char>)
    requires
        parents_fault(s, op_id) is None,
    ensures
        forall|i: int|
            0 <= i < s.len() ==> (#[trigger] s[i]).op_id == op_id && s[i].parent_op_id != op_id,
    decreases s.len(),
{
    if s.len() > 0 {
        lemma_parents_tied(s.drop_first(), op_id);
        assert forall|i: int| 0 <= i < s.len() implies (#[trigger] s[i]).op_id == op_id
            && s[i].parent_op_id != op_id by {
            if i > 0 {
                assert(s[i] == s.drop_first()[i - 1]);
            }
        }
    }
}

proof fn lemma_refs_tied(s: Seq<ViewRefModel>, view_id: Seq<char>, foreign: Seq<char>)
    requires
        refs_fault(s, view_id, foreign) is None,
    ensures
        forall|i: int| 0 <= i < s.len() ==> (#[trigger] s[i]).view_id == view_id,
    decreases s.len(),
{
    if s.len() > 0 {
        lemma_refs_tied(s.drop_first(), view_id, foreign);
        assert forall|i: int| 0 <= i < s.len() implies (#[trigger] s[i]).view_id == view_id by {
            if i > 0 {
                assert(s[i] == s.drop_first()[i - 1]);
            }
        }
    }
}

proof fn lemma_workspace_tied(s: Seq<ViewWorkspaceModel>, view_id: Seq<char>)
    requires
        workspace_fault(s, view_id) is None,
    ensures
        forall|i: int| 0 <= i < s.len() ==> (#[trigger] s[i]).view_id == view_id,
    decreases s.len(),
{
    if s.len() > 0 {
        lemma_workspace_tied(s.drop_first(), view_id);
        assert forall|i: int| 0 <= i < s.len() implies (#[trigger] s[i]).view_id == view_id by {
            if i > 0 {
                assert(s[i] == s.drop_first()[i - 1]);
            }
        }
    }
}

/// A graph that passes its check is tied together: every edge starts at its
/// operation and none ends there, and every reference and workspace pointer
/// stands under its view, which is the operation's.
pub proof fn law_checked_graph_is_tied(g: GraphModel)
    requires
        g.fault() is None,
    ensures
        g.operation.view_id == g.view.view_id,
        g.operation.repo_id == g.view.repo_id,
        forall|i: int|
            0 <= i < g.parents.len() ==> (#[trigger] g.parents[i]).op_id == g.operation.op_id
                && g.parents[i].parent_op_id != g.operation.op_id,
        forall|i: int| 0 <= i < g.refs.len() ==> (#[trigger] g.refs[i]).view_id == g.view.view_id,
        forall|i: int|
            0 <= i < g.workspace.len() ==> (#[trigger] g.workspace[i]).view_id == g.view.view_id,
{
    lemma_parents_tied(g.parents, g.operation.op_id);
    lemma_refs_tied(g.refs, g.view.view_id, "all view refs must belong to view.view_id"@);
    lemma_workspace_tied(g.workspace, g.view.view_id);
}

//// Rows of version 2

/// A row of the version 2 `operation` table.
#[derive(Debug)]
pub struct V2OperationRow {
    pub op_id: String,
    pub repo_id: String,
    pub command_name: Option<String>,
    pub description: Option<String>,
    pub actor: Option<String>,
    pub args_digest: Option<String>,
    pub start_ts: i64,
    pub end_ts: Option<i64>,
    pub status: String,
    pub worktree_id: Option<String>,
    pub scope_provenance: Option<String>,
    pub restorable: Option<i64>,
    pub control_slot: Option<String>,
    pub claim_owner: Option<String>,
    pub scope_kind: String,
    pub post_view_oid: String,
}

/// The text of an optional string, empty where there is none.
pub open spec fn text_or_empty(o: Option<String>) -> Seq<char> {
    match o {
        Some(s) => s@,
        None => Seq::empty(),
    }
}

fn string_or_empty(o: Option<String>) -> (r: String)
    ensures
        r@ == text_or_empty(o),
{
    match o {
        Some(s) => s,
        None => String::new(),
    }
}

impl V2OperationRow {
    /// The record that the row holds, with its status. The view it points to
    /// stands in for the view's id.
    pub open spec fn record(self, status: OperationStatus) -> RecordModel {
        RecordModel {
            op_id: self.op_id@,
            repo_id: self.repo_id@,
            view_id: self.post_view_oid@,
            command_name: text_or_empty(self.command_name),
            description: text_or_empty(self.description),
            actor: text_or_empty(self.actor),
            args_digest: text::opt_text(self.args_digest),
            start_ts: self.start_ts,
            end_ts: self.end_ts,
            status,
            worktree_id: text_or_empty(self.worktree_id),
            scope_provenance: match self.scope_provenance {
                Some(s) => s@,
                None => "declared"@,
            },
            restorable: self.restorable != Some(0i64),
            control_slot: text::opt_text(self.control_slot),
            claim_owner: text::opt_text(self.claim_owner),
            scope_kind: self.scope_kind@,
        }
    }

    /// The record that the row holds, or why it holds none.
    pub open spec fn read(self) -> Result<RecordModel, ServiceErrorModel> {
        match OperationStatus::v2_named(self.status@) {
            Some(status) => Ok(self.record(status)),
            None => Err(
                ServiceErrorModel::Internal(
                    "unknown v2 operation status value in storage: "@ + self.status@,
                ),
            ),
        }
    }
}

pub fn record_from_v2_row(row: V2OperationRow) -> (r: Result<
    OperationRecord,
    OperationServiceError,
>)
    ensures
        (match r {
            Ok(x) => row.read() == Ok::<RecordModel, ServiceErrorModel>(x@),
            Err(e) => row.read() == Err::<RecordModel, ServiceErrorModel>(e@),
        }),
{
    let status = operation_status_from_v2(row.status.as_str())?;
    let scope_provenance = match row.scope_provenance {
        Some(s) => s,
        None => "declared".to_owned(),
    };
    let restorable = match row.restorable {
        Some(n) => n != 0,
        None => true,
    };
    Ok(
        OperationRecord {
            op_id: row.op_id,
            repo_id: row.repo_id,
            view_id: row.post_view_oid,
            command_name: string_or_empty(row.command_name),
            description: string_or_empty(row.description),
            actor: string_or_empty(row.actor),
            args_digest: row.args_digest,
            start_ts: row.start_ts,
            end_ts: row.end_ts,
            status,
            worktree_id: string_or_empty(row.worktree_id),
            scope_provenance,
            restorable,
            control_slot: row.control_slot,
            claim_owner: row.claim_owner,
            scope_kind: row.scope_kind,
        },
    )
}

/// The records that rows hold, or why the first that holds none does not.
pub open spec fn read_v2_rows(s: Seq<V2OperationRow>) -> Result<
    Seq<RecordModel>,
    ServiceErrorModel,
>
    decreases s.len(),
{
    if s.len() == 0 {
        Ok(Seq::empty())
    } else {
        match read_v2_rows(s.drop_last()) {
            Err(e) => Err(e),
            Ok(before) => match s.last().read() {
                Err(e) => Err(e),
                Ok(x) => Ok(before.push(x)),
            },
        }
    }
}

proof fn lemma_read_v2_error(s: Seq<V2OperationRow>, n: int)
    requires
        0 <= n <= s.len(),
        read_v2_rows(s.take(n)) is Err,
    ensures
        read_v2_rows(s) == read_v2_rows(s.take(n)),
    decreases s.len() - n,
{
    if n < s.len() {
        assert(s.take(n + 1).drop_last() =~= s.take(n));
        lemma_read_v2_error(s, n + 1);
    } else {
        assert(s.take(n) =~= s);
    }
}

pub fn records_from_v2_rows(rows: Vec<V2OperationRow>) -> (r: Result<
    Vec<OperationRecord>,
    OperationServiceError,
>)
    ensures
        (match r {
            Ok(v) => read_v2_rows(rows@) == Ok::<Seq<RecordModel>, ServiceErrorModel>(
                order::views(v@),
            ),
            Err(e) => read_v2_rows(rows@) == Err::<Seq<RecordModel>, ServiceErrorModel>(e@),
        }),
{
    let ghost all = rows@;
    let mut rest = rows;
    let mut out: Vec<OperationRecord> = Vec::new();
    let ghost mut n: int = 0;
    assert(all.take(0) =~= Seq::<V2OperationRow>::empty());
    assert(order::views(out@) =~= Seq::<RecordModel>::empty());
    assert(rest@ =~= all.skip(0));
    while rest.len() > 0
        invariant
            all == rows@,
            0 <= n <= all.len(),
            rest@ == all.skip(n),
            read_v2_rows(all.take(n)) == Ok::<Seq<RecordModel>, ServiceErrorModel>(
                order::views(out@),
            ),
        decreases rest@.len(),
    {
        let ghost before = order::views(out@);
        let row = rest.remove(0);
        assert(row == all[n]);
        assert(rest@ =~= all.skip(n + 1));
        assert(all.take(n + 1).drop_last() =~= all.take(n));
        assert(all.take(n + 1).last() == row);
        match record_from_v2_row(row) {
            Ok(x) => {
                let ghost m = x@;
                out.push(x);
                assert(order::views(out@) =~= before.push(m));
            },
            Err(e) => {
                proof {
                    lemma_read_v2_error(all, n + 1);
                }
                return Err(e);
            },
        }
        proof {
            n = n + 1;
        }
    }
    assert(all.take(n) =~= all);
    Ok(out)
}

/// The record that a query for one operation found, where it found one.
pub fn first_v2_record(rows: Vec<V2OperationRow>) -> (r: Result<
    Option<OperationRecord>,
    OperationServiceError,
>)
    ensures
        (match r {
            Ok(Some(x)) => rows@.len() > 0 && rows@[0].read() == Ok::<
                RecordModel,
                ServiceErrorModel,
            >(x@),
            Ok(None) => rows@.len() == 0,
            Err(e) => rows@.len() > 0 && rows@[0].read() == Err::<RecordModel, ServiceErrorModel>(
                e@,
            ),
        }),
{
    let mut rest = rows;
    if rest.len() == 0 {
        return Ok(None);
    }
    match record_from_v2_row(rest.remove(0)) {
        Ok(x) => Ok(Some(x)),
        Err(e) => Err(e),
    }
}

/// The list items for records.
pub open spec fn log_items(s: Seq<RecordModel>) -> Seq<LogItemModel> {
    s.map_values(|x: RecordModel| x.log_item())
}

pub fn log_items_from_records(records: Vec<OperationRecord>) -> (r: Vec<OperationLogListItem>)
    ensures
        order::views(r@) == log_items(order::views(records@)),
{
    let ghost all = records@;
    let mut rest = records;
    let mut out: Vec<OperationLogListItem> = Vec::new();
    while rest.len() > 0
        invariant
            out@.len() + rest@.len() == all.len(),
            rest@ == all.skip(out@.len() as int),
            forall|i: int|
                0 <= i < out@.len() ==> (#[trigger] out@[i])@ == all[i]@.log_item(),
        decreases rest@.len(),
    {
        let ghost k = out@.len() as int;
        let record = rest.remove(0);
        assert(record == all[k]);
        out.push(
            OperationLogListItem {
                op_id: record.op_id,
                command_name: record.command_name,
                description: record.description,
                actor: record.actor,
                end_ts: record.end_ts,
                status: record.status,
            },
        );
        assert(rest@ =~= all.skip(k + 1));
    }
    assert(order::views(out@) =~= log_items(order::views(all)));
    out
}

/// The page that a count and the rows of a page make. A negative count reads
/// as zero.
pub fn page_from_v2_rows(rows: Vec<V2OperationRow>, query: OperationQueryPage, total: i64) -> (r:
    Result<OperationPage<OperationLogListItem>, OperationServiceError>)
    ensures
        (match r {
            Ok(page) => {
                &&& read_v2_rows(rows@) matches Ok(records)
                &&& order::views(page.items@) == log_items(records)
                &&& page.page == query.within_limits().page
                &&& page.per_page == query.within_limits().per_page
                &&& page.total == if total < 0 {
                    0
                } else {
                    total as int
                }
            },
            Err(e) => read_v2_rows(rows@) == Err::<Seq<RecordModel>, ServiceErrorModel>(e@),
        }),
{
    let records = records_from_v2_rows(rows)?;
    let items = log_items_from_records(records);
    let count = if total < 0 {
        0
    } else {
        total as u64
    };
    Ok(OperationService::new_page(items, query, count))
}

//// Requests of version 2

pub const V2_OPERATION_SELECT: &'static str = "SELECT op_id, repo_id, command_name, description, actor, args_digest, start_ts, end_ts, \
     status, worktree_id, scope_provenance, restorable, control_slot, claim_owner, scope_kind, \
     post_view_oid FROM operation";

/// Whether the columns of the `operation` table are those of the layout that
/// keeps a view id.
pub fn operation_has_legacy_view_id(columns: &[String]) -> (r: bool)
    ensures
        r == text::texts(columns@).contains("view_id"@),
{
    let mut i: usize = 0;
    while i < columns.len()
        invariant
            i <= columns@.len(),
            forall|j: int| 0 <= j < i ==> (#[trigger] columns@[j])@ != "view_id"@,
        decreases columns@.len() - i,
    {
        if same(columns[i].as_str(), "view_id") {
            assert(text::texts(columns@)[i as int] == "view_id"@);
            return true;
        }
        i += 1;
    }
    assert(!text::texts(columns@).contains("view_id"@)) by {
        if text::texts(columns@).contains("view_id"@) {
            let j = choose|j: int|
                0 <= j < columns@.len() && text::texts(columns@)[j] == "view_id"@;
            assert(columns@[j]@ == "view_id"@);
        }
    }
    false
}

/// The object id of nothing: as many zeros as an object id has digits.
pub fn zero_object_id(hex_len: usize) -> (r: String)
    ensures
        r@ == Seq::new(hex_len as nat, |i: int| '0'),
{
    let mut out = String::new();
    let mut i: usize = 0;
    while i < hex_len
        invariant
            i <= hex_len,
            out@ == Seq::new(i as nat, |j: int| '0'),
        decreases hex_len - i,
    {
        out.push('0');
        i += 1;
        assert(out@ =~= Seq::new(i as nat, |j: int| '0'));
    }
    assert(out@ =~= Seq::new(hex_len as nat, |i: int| '0'));
    out
}

/// The text of an optional string slice.
pub open spec fn opt_str(o: Option<&str>) -> Option<Seq<char>> {
    match o {
        Some(s) => Some(s@),
        None => None,
    }
}

/// The statement that lists the operations of a repository, newest first: all,
/// or those of one command; from the start, or past an offset.
pub open spec fn list_statement(
    repo_id: Seq<char>,
    command_name: Option<Seq<char>>,
    limit: u64,
    offset: Option<u64>,
) -> QueryModel {
    let by_command = if command_name is Some {
        " AND command_name = ?"@
    } else {
        Seq::empty()
    };
    let past = if offset is Some {
        " OFFSET ?"@
    } else {
        Seq::empty()
    };
    let keys = match command_name {
        Some(c) => seq![sql::text(repo_id), sql::text(c)],
        None => seq![sql::text(repo_id)],
    };
    let bounded = keys.push(sql::number(limit as i64));
    QueryModel {
        sql: V2_OPERATION_SELECT@ + " WHERE repo_id = ?"@ + by_command
            + " ORDER BY end_ts DESC, start_ts DESC, op_id DESC LIMIT ?"@ + past,
        values: match offset {
            Some(o) => bounded.push(sql::number(o as i64)),
            None => bounded,
        },
    }
}

pub fn v2_list_operations(
    repo_id: &str,
    command_name: Option<&str>,
    limit: u64,
    offset: Option<u64>,
) -> (r: SqlQuery)
    ensures
        r@ == list_statement(repo_id@, opt_str(command_name), limit, offset),
{
    let mut q = SqlQuery::new(V2_OPERATION_SELECT);
    q.push_sql(" WHERE repo_id = ?");
    if command_name.is_some() {
        q.push_sql(" AND command_name = ?");
    }
    q.push_sql(" ORDER BY end_ts DESC, start_ts DESC, op_id DESC LIMIT ?");
    if offset.is_some() {
        q.push_sql(" OFFSET ?");
    }
    q.push_text(repo_id);
    if let Some(c) = command_name {
        q.push_text(c);
    }
    q.push_number(limit as i64);
    if let Some(o) = offset {
        q.push_number(o as i64);
    }
    assert(q@ =~= list_statement(repo_id@, opt_str(command_name), limit, offset));
    q
}

/// The statement that counts the operations of a repository: all, or those of
/// one command.
pub open spec fn count_statement(repo_id: Seq<char>, command_name: Option<Seq<char>>) -> QueryModel {
    match command_name {
        Some(c) => QueryModel {
            sql: "SELECT COUNT(*) FROM operation WHERE repo_id = ? AND command_name = ?"@,
            values: seq![sql::text(repo_id), sql::text(c)],
        },
        None => QueryModel {
            sql: "SELECT COUNT(*) FROM operation WHERE repo_id = ?"@,
            values: seq![sql::text(repo_id)],
        },
    }
}

fn v2_count_operations(repo_id: &str, command_name: Option<&str>) -> (r: SqlQuery)
    ensures
        r@ == count_statement(repo_id@, opt_str(command_name)),
{
    match command_name {
        Some(c) => {
            let mut q = SqlQuery::new(
                "SELECT COUNT(*) FROM operation WHERE repo_id = ? AND command_name = ?",
            );
            q.push_text(repo_id);
            q.push_text(c);
            q
        },
        None => {
            let mut q = SqlQuery::new("SELECT COUNT(*) FROM operation WHERE repo_id = ?");
            q.push_text(repo_id);
            q
        },
    }
}

/// `Ok` with the statement where there is no fault, else the fault as an
/// invalid argument.
pub open spec fn is_request(
    r: Result<SqlQuery, OperationServiceError>,
    fault: Option<Seq<char>>,
    statement: QueryModel,
) -> bool {
    match r {
        Ok(q) => fault is None && q@ == statement,
        Err(e) => match fault {
            Some(m) => e@ == ServiceErrorModel::InvalidArgument(m),
            None => false,
        },
    }
}

/// What is wrong with a request for at most `limit` operations of a
/// repository.
pub open spec fn listing_fault(repo_id: Seq<char>, limit: u64) -> Option<Seq<char>> {
    if text::is_blank(repo_id) {
        Some("repo_id must not be empty"@)
    } else if limit == 0 {
        Some("limit must be greater than 0"@)
    } else {
        None
    }
}

/// The command to list: trimmed, and none where nothing is left.
pub open spec fn command_filter(command_name: Option<Seq<char>>) -> Option<Seq<char>> {
    match command_name {
        Some(c) => if text::trim(c).len() > 0 {
            Some(text::trim(c))
        } else {
            None
        },
        None => None,
    }
}

/// The command to list, of what was asked for.
pub fn command_to_list(command_name: Option<&str>) -> (r: Option<String>)
    ensures
        text::opt_text(r) == command_filter(opt_str(command_name)),
{
    match command_name {
        Some(c) => {
            let cs = chars_of(c);
            let t = trimmed(cs.as_slice());
            if t.len() > 0 {
                Some(text_of(t))
            } else {
                None
            }
        },
        None => None,
    }
}

/// The statement that finds recent successes of one command with one digest:
/// in one worktree, or in the whole repository.
pub open spec fn duplicates_statement(
    repo_id: Seq<char>,
    worktree_id: Option<Seq<char>>,
    command_name: Seq<char>,
    args_digest: Seq<char>,
    earliest_end_ts: i64,
    limit: u64,
) -> QueryModel {
    let scoped = if worktree_id is Some {
        " AND worktree_id = ?"@
    } else {
        Seq::empty()
    };
    let keys = seq![
        sql::text(repo_id),
        sql::text(command_name),
        sql::text(args_digest),
        sql::number(earliest_end_ts),
    ];
    QueryModel {
        sql: V2_OPERATION_SELECT@
            + " WHERE repo_id = ? AND command_name = ? AND args_digest = ? AND status IN ('success', 'succeeded') AND end_ts >= ?"@
            + scoped + " ORDER BY end_ts DESC, start_ts DESC, op_id DESC LIMIT ?"@,
        values: match worktree_id {
            Some(w) => keys.push(sql::text(w)).push(sql::number(limit as i64)),
            None => keys.push(sql::number(limit as i64)),
        },
    }
}

/// What a page of the operation log asks of the database.
#[derive(Debug)]
pub struct PageRequest {
    pub count: SqlQuery,
    pub list: SqlQuery,
    pub command_name: Option<String>,
    pub query: OperationQueryPage,
}

impl OperationService {
    pub fn find_operation_by_id(op_id: &str) -> (r: Result<SqlQuery, OperationServiceError>)
        ensures
            is_request(
                r,
                if text::is_blank(op_id@) {
                    Some("op_id must not be empty"@)
                } else {
                    None
                },
                QueryModel {
                    sql: V2_OPERATION_SELECT@ + " WHERE op_id = ? LIMIT 1"@,
                    values: seq![sql::text(op_id@)],
                },
            ),
    {
        if blank(op_id) {
            return Err(invalid("op_id must not be empty"));
        }
        let mut q = SqlQuery::new(V2_OPERATION_SELECT);
        q.push_sql(" WHERE op_id = ? LIMIT 1");
        q.push_text(op_id);
        Ok(q)
    }

    pub fn list_operations_by_repo(repo_id: &str, limit: u64) -> (r: Result<
        SqlQuery,
        OperationServiceError,
    >)
        ensures
            is_request(
                r,
                listing_fault(repo_id@, limit),
                list_statement(repo_id@, None, limit, None),
            ),
    {
        if blank(repo_id) {
            return Err(invalid("repo_id must not be empty"));
        }
        if limit == 0 {
            return Err(invalid("limit must be greater than 0"));
        }
        Ok(v2_list_operations(repo_id, None, limit, None))
    }

    /// Recent successes for one repository, worktree, command and digest.
    /// Without a worktree the whole repository is searched.
    pub fn recent_duplicate_candidates(
        repo_id: &str,
        worktree_id: Option<&str>,
        command_name: &str,
        args_digest: &str,
        earliest_end_ts: i64,
        limit: u64,
    ) -> (r: Result<SqlQuery, OperationServiceError>)
        ensures
            is_request(
                r,
                listing_fault(repo_id@, limit),
                duplicates_statement(
                    repo_id@,
                    opt_str(worktree_id),
                    command_name@,
                    args_digest@,
                    earliest_end_ts,
                    limit,
                ),
            ),
    {
        if blank(repo_id) {
            return Err(invalid("repo_id must not be empty"));
        }
        if limit == 0 {
            return Err(invalid("limit must be greater than 0"));
        }
        let mut q = SqlQuery::new(V2_OPERATION_SELECT);
        q.push_sql(
            " WHERE repo_id = ? AND command_name = ? AND args_digest = ? AND status IN ('success', 'succeeded') AND end_ts >= ?",
        );
        if worktree_id.is_some() {
            q.push_sql(" AND worktree_id = ?");
        }
        q.push_sql(" ORDER BY end_ts DESC, start_ts DESC, op_id DESC LIMIT ?");
        q.push_text(repo_id);
        q.push_text(command_name);
        q.push_text(args_digest);
        q.push_number(earliest_end_ts);
        if let Some(w) = worktree_id {
            q.push_text(w);
        }
        q.push_number(limit as i64);
        assert(q@ =~= duplicates_statement(
            repo_id@,
            opt_str(worktree_id),
            command_name@,
            args_digest@,
            earliest_end_ts,
            limit,
        ));
        Ok(q)
    }

    /// A page of the operation log of a repository, of all commands or of one.
    pub fn list_operations_by_repo_and_command_paginated(
        repo_id: &str,
        command_name: Option<&str>,
        query: OperationQueryPage,
    ) -> (r: Result<PageRequest, OperationServiceError>)
        requires
            query.entries_before() <= u64::MAX,
        ensures
            (match r {
                Ok(p) => {
                    let command = command_filter(opt_str(command_name));
                    &&& !text::is_blank(repo_id@)
                    &&& p.query == query.within_limits()
                    &&& text::opt_text(p.command_name) == command
                    &&& p.count@ == count_statement(repo_id@, command)
                    &&& p.list@ == list_statement(
                        repo_id@,
                        command,
                        query.within_limits().per_page,
                        Some(query.entries_before() as u64),
                    )
                },
                Err(e) => text::is_blank(repo_id@) && e@ == ServiceErrorModel::InvalidArgument(
                    "repo_id must not be empty"@,
                ),
            }),
    {
        if blank(repo_id) {
            return Err(invalid("repo_id must not be empty"));
        }
        let command = command_to_list(command_name);
        let normal = query.normalized();
        proof {
            law_normalized_is_stable(query);
        }
        let offset = normal.offset();
        let by: Option<&str> = match &command {
            Some(c) => Some(c.as_str()),
            None => None,
        };
        let count = v2_count_operations(repo_id, by);
        let list = v2_list_operations(repo_id, by, normal.per_page, Some(offset));
        Ok(PageRequest { count, list, command_name: command, query: normal })
    }

    pub fn list_operations_by_repo_paginated(repo_id: &str, query: OperationQueryPage) -> (r: Result<
        PageRequest,
        OperationServiceError,
    >)
        requires
            query.entries_before() <= u64::MAX,
        ensures
            (match r {
                Ok(p) => {
                    &&& !text::is_blank(repo_id@)
                    &&& p.query == query.within_limits()
                    &&& p.command_name is None
                    &&& p.count@ == count_statement(repo_id@, None)
                    &&& p.list@ == list_statement(
                        repo_id@,
                        None,
                        query.within_limits().per_page,
                        Some(query.entries_before() as u64),
                    )
                },
                Err(e) => text::is_blank(repo_id@) && e@ == ServiceErrorModel::InvalidArgument(
                    "repo_id must not be empty"@,
                ),
            }),
    {
        Self::list_operations_by_repo_and_command_paginated(repo_id, None, query)
    }

    /// The parent edges of an operation, ordered by parent operation id.
    pub fn list_parents(op_id: &str) -> (r: Result<SqlQuery, OperationServiceError>)
        ensures
            is_request(
                r,
                if text::is_blank(op_id@) {
                    Some("op_id must not be empty"@)
                } else {
                    None
                },
                QueryModel {
                    sql:
                        "SELECT op_id, parent_op_id FROM operation_parent WHERE op_id = ? ORDER BY parent_op_id ASC"@,
                    values: seq![sql::text(op_id@)],
                },
            ),
    {
        if blank(op_id) {
            return Err(invalid("op_id must not be empty"));
        }
        let mut q = SqlQuery::new(
            "SELECT op_id, parent_op_id FROM operation_parent WHERE op_id = ? ORDER BY parent_op_id ASC",
        );
        q.push_text(op_id);
        Ok(q)
    }

    /// The running control claim on one worktree's slot.
    pub fn running_control_claim(repo_id: &str, worktree_id: &str) -> (r: SqlQuery)
        ensures
            r@ == (QueryModel {
                sql:
                    "SELECT op_id, COALESCE(command_name, ''), start_ts, claim_owner FROM operation WHERE repo_id = ? AND worktree_id = ? AND status = 'running' AND control_slot IS NOT NULL LIMIT 1"@,
                values: seq![sql::text(repo_id@), sql::text(worktree_id@)],
            }),
    {
        let mut q = SqlQuery::new(
            "SELECT op_id, COALESCE(command_name, ''), start_ts, claim_owner FROM operation WHERE repo_id = ? AND worktree_id = ? AND status = 'running' AND control_slot IS NOT NULL LIMIT 1",
        );
        q.push_text(repo_id);
        q.push_text(worktree_id);
        q
    }

    /// Closes an abandoned claim by marking it failed, which releases the
    /// worktree's control slot and keeps the row.
    pub fn abandon_claim(op_id: &str, end_ts: i64) -> (r: SqlQuery)
        ensures
            r@ == (QueryModel {
                sql:
                    "UPDATE operation SET status = 'failed', end_ts = ?, control_slot = NULL WHERE op_id = ? AND status = 'running'"@,
                values: seq![sql::number(end_ts), sql::text(op_id@)],
            }),
    {
        let mut q = SqlQuery::new(
            "UPDATE operation SET status = 'failed', end_ts = ?, control_slot = NULL WHERE op_id = ? AND status = 'running'",
        );
        q.push_number(end_ts);
        q.push_text(op_id);
        q
    }

    /// Deletes an operation: its edges, its journal, and last the row itself.
    /// In tables of version 1 the row is deleted alone. The last statement
    /// tells whether there was one.
    pub fn delete_operation(op_id: &str, legacy: bool) -> (r: Vec<SqlQuery>)
        ensures
            order::views(r@) == if legacy {
                seq![legacy_statements::delete_statement(op_id@)]
            } else {
                seq![
                    QueryModel {
                        sql: "DELETE FROM operation_parent WHERE op_id = ?"@,
                        values: seq![sql::text(op_id@)],
                    },
                    QueryModel {
                        sql: "DELETE FROM operation_journal WHERE op_id = ?"@,
                        values: seq![sql::text(op_id@)],
                    },
                    QueryModel {
                        sql: "DELETE FROM operation WHERE op_id = ?"@,
                        values: seq![sql::text(op_id@)],
                    },
                ]
            },
    {
        let mut out: Vec<SqlQuery> = Vec::new();
        if legacy {
            let row = legacy_statements::delete_operation(op_id);
            out.push(row);
            assert(order::views(out@) =~= seq![row@]);
            return out;
        }
        let mut parents = SqlQuery::new("DELETE FROM operation_parent WHERE op_id = ?");
        parents.push_text(op_id);
        let mut journal = SqlQuery::new("DELETE FROM operation_journal WHERE op_id = ?");
        journal.push_text(op_id);
        let mut row = SqlQuery::new("DELETE FROM operation WHERE op_id = ?");
        row.push_text(op_id);
        out.push(parents);
        out.push(journal);
        out.push(row);
        assert(order::views(out@) =~= seq![parents@, journal@, row@]);
        out
    }

    /// The newest stored graph of an operation.
    pub fn stored_graph_payload(op_id: &str) -> (r: SqlQuery)
        ensures
            r@ == (QueryModel {
                sql:
                    "SELECT recovery_payload FROM operation_journal WHERE op_id = ? AND recovery_payload IS NOT NULL ORDER BY updated_at DESC, journal_id DESC LIMIT 1"@,
                values: seq![sql::text(op_id@)],
            }),
    {
        let mut q = SqlQuery::new(
            "SELECT recovery_payload FROM operation_journal WHERE op_id = ? AND recovery_payload IS NOT NULL ORDER BY updated_at DESC, journal_id DESC LIMIT 1",
        );
        q.push_text(op_id);
        q
    }
}

//// Writes of version 2

pub const V2_OPERATION_INSERT: &'static str = "INSERT INTO operation (op_id, repo_id, format_version, kind, status, \
     command_name, description, args_digest, actor, worktree_id, scope_kind, \
     pre_view_oid, post_view_oid, restores_op_id, reverts_op_id, \
     predecessor_map_oid, causal_context_id, start_ts, end_ts, scope_provenance, \
     restorable, control_slot, claim_owner) \
     VALUES (?, ?, 2, 'command', ?, ?, ?, ?, ?, ?, ?, ?, ?, NULL, NULL, NULL, NULL, ?, ?, ?, ?, ?, ?)";

pub const V2_PARENT_INSERT: &'static str = "INSERT INTO operation_parent (op_id, parent_op_id, ordinal) \
     VALUES (?, ?, COALESCE((SELECT MAX(ordinal) + 1 FROM operation_parent \
     WHERE op_id = ?), 0))";

pub const V2_OPERATION_UPDATE: &'static str = "UPDATE operation SET pre_view_oid = ?, post_view_oid = ?, command_name = ?, \
     description = ?, args_digest = ?, actor = ?, worktree_id = ?, scope_kind = ?, \
     status = ?, start_ts = ?, end_ts = ?, scope_provenance = ?, restorable = ?, \
     control_slot = ?, claim_owner = ? WHERE op_id = ?";

pub const V2_JOURNAL_UPSERT: &'static str = "INSERT INTO operation_journal (journal_id, op_id, phase, pre_view_oid, \
     target_view_oid, owner, updated_at, recovery_payload) VALUES (?, ?, 'publish', \
     ?, ?, ?, ?, ?) ON CONFLICT(journal_id) DO UPDATE SET op_id = excluded.op_id, \
     phase = excluded.phase, pre_view_oid = excluded.pre_view_oid, \
     target_view_oid = excluded.target_view_oid, owner = excluded.owner, \
     updated_at = excluded.updated_at, recovery_payload = excluded.recovery_payload";

/// One or zero.
pub open spec fn flag(b: bool) -> SqlModel {
    SqlModel::Int(
        if b {
            1
        } else {
            0
        },
    )
}

/// The statement that inserts a record; both of its views are nothing yet.
pub open spec fn insert_statement(m: RecordModel, zero_oid: Seq<char>) -> QueryModel {
    QueryModel {
        sql: V2_OPERATION_INSERT@,
        values: seq![
            sql::text(m.op_id),
            sql::text(m.repo_id),
            sql::text(m.status.v2_name()),
            sql::text(m.command_name),
            sql::text(m.description),
            SqlModel::Text(m.args_digest),
            sql::text(m.actor),
            sql::text(m.worktree_id),
            sql::text(m.scope_kind),
            sql::text(zero_oid),
            sql::text(zero_oid),
            sql::number(m.start_ts),
            SqlModel::BigInt(m.end_ts),
            sql::text(m.scope_provenance),
            flag(m.restorable),
            SqlModel::Text(m.control_slot),
            SqlModel::Text(m.claim_owner),
        ],
    }
}

pub fn insert_v2_operation(record: &OperationRecord, zero_oid: &str) -> (r: SqlQuery)
    ensures
        r@ == insert_statement(record@, zero_oid@),
{
    let mut q = SqlQuery::new(V2_OPERATION_INSERT);
    q.push_text(record.op_id.as_str());
    q.push_text(record.repo_id.as_str());
    q.push_text(operation_status_to_v2(record.status));
    q.push_text(record.command_name.as_str());
    q.push_text(record.description.as_str());
    q.push_opt_text(&record.args_digest);
    q.push_text(record.actor.as_str());
    q.push_text(record.worktree_id.as_str());
    q.push_text(record.scope_kind.as_str());
    q.push_text(zero_oid);
    q.push_text(zero_oid);
    q.push_number(record.start_ts);
    q.push_opt_number(record.end_ts);
    q.push_text(record.scope_provenance.as_str());
    q.push_flag(record.restorable);
    q.push_opt_text(&record.control_slot);
    q.push_opt_text(&record.claim_owner);
    q
}

/// The statement that inserts a parent edge behind those already there.
pub open spec fn parent_statement(m: ParentModel) -> QueryModel {
    QueryModel {
        sql: V2_PARENT_INSERT@,
        values: seq![sql::text(m.op_id), sql::text(m.parent_op_id), sql::text(m.op_id)],
    }
}

pub fn insert_parent_v2(record: &OperationParentRecord) -> (r: SqlQuery)
    ensures
        r@ == parent_statement(record@),
{
    let mut q = SqlQuery::new(V2_PARENT_INSERT);
    q.push_text(record.op_id.as_str());
    q.push_text(record.parent_op_id.as_str());
    q.push_text(record.op_id.as_str());
    q
}

/// The statement that completes a record and gives it its view.
pub open spec fn update_statement(m: RecordModel, view_oid: Seq<char>) -> QueryModel {
    QueryModel {
        sql: V2_OPERATION_UPDATE@,
        values: seq![
            sql::text(view_oid),
            sql::text(view_oid),
            sql::text(m.command_name),
            sql::text(m.description),
            SqlModel::Text(m.args_digest),
            sql::text(m.actor),
            sql::text(m.worktree_id),
            sql::text(m.scope_kind),
            sql::text(m.status.v2_name()),
            sql::number(m.start_ts),
            SqlModel::BigInt(m.end_ts),
            sql::text(m.scope_provenance),
            flag(m.restorable),
            SqlModel::Text(m.control_slot),
            SqlModel::Text(m.claim_owner),
            sql::text(m.op_id),
        ],
    }
}

fn update_v2_operation(record: &OperationRecord, view_oid: &str) -> (r: SqlQuery)
    ensures
        r@ == update_statement(record@, view_oid@),
{
    let mut q = SqlQuery::new(V2_OPERATION_UPDATE);
    q.push_text(view_oid);
    q.push_text(view_oid);
    q.push_text(record.command_name.as_str());
    q.push_text(record.description.as_str());
    q.push_opt_text(&record.args_digest);
    q.push_text(record.actor.as_str());
    q.push_text(record.worktree_id.as_str());
    q.push_text(record.scope_kind.as_str());
    q.push_text(operation_status_to_v2(record.status));
    q.push_number(record.start_ts);
    q.push_opt_number(record.end_ts);
    q.push_text(record.scope_provenance.as_str());
    q.push_flag(record.restorable);
    q.push_opt_text(&record.control_slot);
    q.push_opt_text(&record.claim_owner);
    q.push_text(record.op_id.as_str());
    q
}

/// The statement that stores a graph in the journal, under one id for each
/// operation.
pub open spec fn journal_statement(
    m: RecordModel,
    view_oid: Seq<char>,
    payload: Seq<char>,
) -> QueryModel {
    QueryModel {
        sql: V2_JOURNAL_UPSERT@,
        values: seq![
            sql::text("legacy-compat:"@ + m.op_id),
            sql::text(m.op_id),
            sql::text(view_oid),
            sql::text(view_oid),
            sql::text(m.actor),
            sql::number(
                match m.end_ts {
                    Some(t) => t,
                    None => m.start_ts,
                },
            ),
            sql::text(payload),
        ],
    }
}

fn journal_v2_graph(record: &OperationRecord, view_oid: &str, payload: &str) -> (r: SqlQuery)
    ensures
        r@ == journal_statement(record@, view_oid@, payload@),
{
    let mut q = SqlQuery::new(V2_JOURNAL_UPSERT);
    let journal_id = joined("legacy-compat:", record.op_id.as_str());
    let updated_at = match record.end_ts {
        Some(t) => t,
        None => record.start_ts,
    };
    q.push_text(journal_id.as_str());
    q.push_text(record.op_id.as_str());
    q.push_text(view_oid);
    q.push_text(view_oid);
    q.push_text(record.actor.as_str());
    q.push_number(updated_at);
    q.push_text(payload);
    q
}

/// The statements that store a graph: its record, its edges in order, the
/// record completed with the view, and the journal entry that holds it all.
pub open spec fn graph_statements(
    g: GraphModel,
    zero_oid: Seq<char>,
    view_oid: Seq<char>,
    payload: Seq<char>,
) -> Seq<QueryModel> {
    seq![insert_statement(g.operation, zero_oid)] + g.parents.map_values(
        |p: ParentModel| parent_statement(p),
    ) + seq![
        update_statement(g.operation, view_oid),
        journal_statement(g.operation, view_oid, payload),
    ]
}

/// The statements that store a graph. `view_oid` names the stored view and
/// `payload` is the graph as it is kept in the journal.
pub fn persist_v2_graph(
    graph: &OperationGraphRecord,
    zero_oid: &str,
    view_oid: &str,
    payload: &str,
) -> (r: Vec<SqlQuery>)
    ensures
        order::views(r@) == graph_statements(graph@, zero_oid@, view_oid@, payload@),
{
    let ghost parents = graph@.parents.map_values(|p: ParentModel| parent_statement(p));
    let mut out: Vec<SqlQuery> = Vec::new();
    let first = insert_v2_operation(&graph.operation, zero_oid);
    let ghost head = seq![first@];
    out.push(first);
    assert(order::views(out@) =~= head + parents.take(0));
    let mut i: usize = 0;
    while i < graph.parents.len()
        invariant
            i <= graph.parents@.len(),
            parents == graph@.parents.map_values(|p: ParentModel| parent_statement(p)),
            order::views(out@) == head + parents.take(i as int),
        decreases graph.parents@.len() - i,
    {
        let ghost before = order::views(out@);
        let edge = insert_parent_v2(&graph.parents[i]);
        let ghost m = edge@;
        assert(m == parents[i as int]);
        out.push(edge);
        assert(order::views(out@) =~= before.push(m));
        assert(before.push(m) =~= head + parents.take(i + 1));
        i += 1;
    }
    assert(parents.take(i as int) =~= parents);
    let ghost before = order::views(out@);
    let update = update_v2_operation(&graph.operation, view_oid);
    let journal = journal_v2_graph(&graph.operation, view_oid, payload);
    let ghost tail = seq![update@, journal@];
    out.push(update);
    out.push(journal);
    assert(order::views(out@) =~= before + tail);
    out
}

/// The graph that was stored for an operation. `what` names what is missing
/// where nothing was stored.
pub fn stored_graph(
    op_id: &str,
    operation_id: &str,
    payload: Option<OperationGraphRecord>,
    what: &str,
) -> (r: Result<OperationGraphRecord, OperationServiceError>)
    ensures
        (match r {
            Ok(g) => payload == Some(g) && g.operation.op_id@ == operation_id@,
            Err(e) => match payload {
                None => e@ == ServiceErrorModel::Storage(
                    "operation '"@ + op_id@ + "' has no compatibility "@ + what@ + " payload"@,
                ),
                Some(g) => g.operation.op_id@ != operation_id@ && e@ == ServiceErrorModel::Storage(
                    "operation compatibility payload '"@ + op_id@
                        + "' has a mismatched operation id"@,
                ),
            },
        }),
{
    match payload {
        None => {
            let mut m = joined("operation '", op_id);
            m.append("' has no compatibility ");
            m.append(what);
            m.append(" payload");
            Err(OperationServiceError::Storage(m))
        },
        Some(g) => {
            if !same(g.operation.op_id.as_str(), operation_id) {
                let mut m = joined("operation compatibility payload '", op_id);
                m.append("' has a mismatched operation id");
                return Err(OperationServiceError::Storage(m));
            }
            Ok(g)
        },
    }
}

//// Rows of the layout with view ids

/// A row of the `operation` table that keeps a view id.
#[derive(Debug, Clone, PartialEq, Eq)]
pub struct LegacyOperationRow {
    pub op_id: String,
    pub repo_id: String,
    pub view_id: String,
    pub command_name: String,
    pub description: String,
    pub actor: String,
    pub args_digest: Option<String>,
    pub start_ts: i64,
    pub end_ts: Option<i64>,
    pub status: String,
    pub worktree_id: String,
    pub scope_provenance: String,
    pub restorable: i32,
    pub control_slot: Option<String>,
    pub claim_owner: Option<String>,
    pub scope_kind: String,
}

/// What a [`LegacyOperationRow`] says.
#[verifier::ext_equal]
pub struct LegacyRowModel {
    pub op_id: Seq<char>,
    pub repo_id: Seq<char>,
    pub view_id: Seq<char>,
    pub command_name: Seq<char>,
    pub description: Seq<char>,
    pub actor: Seq<char>,
    pub args_digest: Option<Seq<char>>,
    pub start_ts: i64,
    pub end_ts: Option<i64>,
    pub status: Seq<char>,
    pub worktree_id: Seq<char>,
    pub scope_provenance: Seq<char>,
    pub restorable: i32,
    pub control_slot: Option<Seq<char>>,
    pub claim_owner: Option<Seq<char>>,
    pub scope_kind: Seq<char>,
}

impl View for LegacyOperationRow {
    type V = LegacyRowModel;

    open spec fn view(&self) -> LegacyRowModel {
        LegacyRowModel {
            op_id: self.op_id@,
            repo_id: self.repo_id@,
            view_id: self.view_id@,
            command_name: self.command_name@,
            description: self.description@,
            actor: self.actor@,
            args_digest: text::opt_text(self.args_digest),
            start_ts: self.start_ts,
            end_ts: self.end_ts,
            status: self.status@,
            worktree_id: self.worktree_id@,
            scope_provenance: self.scope_provenance@,
            restorable: self.restorable,
            control_slot: text::opt_text(self.control_slot),
            claim_owner: text::opt_text(self.claim_owner),
            scope_kind: self.scope_kind@,
        }
    }
}

impl LegacyRowModel {
    /// The record that the row holds, or why it holds none.
    pub open spec fn read(self) -> Result<RecordModel, ServiceErrorModel> {
        match OperationStatus::named(self.status) {
            Some(status) => Ok(
                RecordModel {
                    op_id: self.op_id,
                    repo_id: self.repo_id,
                    view_id: self.view_id,
                    command_name: self.command_name,
                    description: self.description,
                    actor: self.actor,
                    args_digest: self.args_digest,
                    start_ts: self.start_ts,
                    end_ts: self.end_ts,
                    status,
                    worktree_id: self.worktree_id,
                    scope_provenance: self.scope_provenance,
                    restorable: self.restorable != 0,
                    control_slot: self.control_slot,
                    claim_owner: self.claim_owner,
                    scope_kind: self.scope_kind,
                },
            ),
            None => Err(
                ServiceErrorModel::Internal(
                    "unknown operation status value in storage: "@ + self.status,
                ),
            ),
        }
    }
}

impl RecordModel {
    /// The row that stores a record.
    pub open spec fn legacy_row(self) -> LegacyRowModel {
        LegacyRowModel {
            op_id: self.op_id,
            repo_id: self.repo_id,
            view_id: self.view_id,
            command_name: self.command_name,
            description: self.description,
            actor: self.actor,
            args_digest: self.args_digest,
            start_ts: self.start_ts,
            end_ts: self.end_ts,
            status: self.status.name(),
            worktree_id: self.worktree_id,
            scope_provenance: self.scope_provenance,
            restorable: if self.restorable {
                1
            } else {
                0
            },
            control_slot: self.control_slot,
            claim_owner: self.claim_owner,
            scope_kind: self.scope_kind,
        }
    }
}

/// A record that was stored is read back as it was.
pub proof fn law_record_round_trip(m: RecordModel)
    ensures
        m.legacy_row().read() == Ok::<RecordModel, ServiceErrorModel>(m),
{
    law_status_round_trip(m.status);
}

/// A reference row: a missing remote is stored as an empty one.
#[derive(Debug, Clone, PartialEq, Eq)]
pub struct ViewRefRow {
    pub view_id: String,
    pub ref_kind: String,
    pub ref_name: String,
    pub ref_remote: String,
    pub target_oid: String,
}

/// What a [`ViewRefRow`] says.
#[verifier::ext_equal]
pub struct ViewRefRowModel {
    pub view_id: Seq<char>,
    pub ref_kind: Seq<char>,
    pub ref_name: Seq<char>,
    pub ref_remote: Seq<char>,
    pub target_oid: Seq<char>,
}

impl View for ViewRefRow {
    type V = ViewRefRowModel;

    open spec fn view(&self) -> ViewRefRowModel {
        ViewRefRowModel {
            view_id: self.view_id@,
            ref_kind: self.ref_kind@,
            ref_name: self.ref_name@,
            ref_remote: self.ref_remote@,
            target_oid: self.target_oid@,
        }
    }
}

impl ViewRefRowModel {
    /// The reference that the row holds.
    pub open spec fn record(self) -> ViewRefModel {
        ViewRefModel {
            view_id: self.view_id,
            ref_kind: self.ref_kind,
            ref_name: self.ref_name,
            ref_remote: if self.ref_remote.len() == 0 {
                None
            } else {
                Some(self.ref_remote)
            },
            target_oid: self.target_oid,
        }
    }
}

impl ViewRefModel {
    /// The row that stores a reference.
    pub open spec fn row(self) -> ViewRefRowModel {
        ViewRefRowModel {
            view_id: self.view_id,
            ref_kind: self.ref_kind,
            ref_name: self.ref_name,
            ref_remote: match self.ref_remote {
                Some(r) => r,
                None => Seq::empty(),
            },
            target_oid: self.target_oid,
        }
    }
}

/// A reference that was stored is read back as it was, unless its remote is
/// there but empty.
pub proof fn law_view_ref_round_trip(m: ViewRefModel)
    requires
        m.ref_remote is Some ==> m.ref_remote->0.len() > 0,
    ensures
        m.row().record() == m,
{
}

impl OperationService {
    /// The row that stores a record.
    pub fn legacy_row(record: &OperationRecord) -> (r: LegacyOperationRow)
        ensures
            r@ == record@.legacy_row(),
    {
        LegacyOperationRow {
            op_id: record.op_id.clone(),
            repo_id: record.repo_id.clone(),
            view_id: record.view_id.clone(),
            command_name: record.command_name.clone(),
            description: record.description.clone(),
            actor: record.actor.clone(),
            args_digest: copy_text(&record.args_digest),
            start_ts: record.start_ts,
            end_ts: record.end_ts,
            status: record.status.as_str().to_owned(),
            worktree_id: record.worktree_id.clone(),
            scope_provenance: record.scope_provenance.clone(),
            restorable: if record.restorable {
                1
            } else {
                0
            },
            control_slot: copy_text(&record.control_slot),
            claim_owner: copy_text(&record.claim_owner),
            scope_kind: record.scope_kind.clone(),
        }
    }

    pub fn record_from_model(row: LegacyOperationRow) -> (r: Result<
        OperationRecord,
        OperationServiceError,
    >)
        ensures
            (match r {
                Ok(x) => row@.read() == Ok::<RecordModel, ServiceErrorModel>(x@),
                Err(e) => row@.read() == Err::<RecordModel, ServiceErrorModel>(e@),
            }),
    {
        let status = OperationStatus::from_db_value(row.status.as_str())?;
        Ok(
            OperationRecord {
                op_id: row.op_id,
                repo_id: row.repo_id,
                view_id: row.view_id,
                command_name: row.command_name,
                description: row.description,
                actor: row.actor,
                args_digest: row.args_digest,
                start_ts: row.start_ts,
                end_ts: row.end_ts,
                status,
                worktree_id: row.worktree_id,
                scope_provenance: row.scope_provenance,
                restorable: row.restorable != 0,
                control_slot: row.control_slot,
                claim_owner: row.claim_owner,
                scope_kind: row.scope_kind,
            },
        )
    }

    pub fn log_list_item_from_model(row: LegacyOperationRow) -> (r: Result<
        OperationLogListItem,
        OperationServiceError,
    >)
        ensures
            (match r {
                Ok(x) => row@.read() matches Ok(m) && x@ == m.log_item(),
                Err(e) => row@.read() == Err::<RecordModel, ServiceErrorModel>(e@),
            }),
    {
        let status = OperationStatus::from_db_value(row.status.as_str())?;
        Ok(
            OperationLogListItem {
                op_id: row.op_id,
                command_name: row.command_name,
                description: row.description,
                actor: row.actor,
                end_ts: row.end_ts,
                status,
            },
        )
    }

    pub fn parent_from_model(row: OperationParentRecord) -> (r: Result<
        OperationParentRecord,
        OperationServiceError,
    >)
        ensures
            (match r {
                Ok(x) => x == row && row@.fault() is None,
                Err(e) => is_verdict(Err(e), row@.fault()),
            }),
    {
        Self::validate_parent_record(&row)?;
        Ok(row)
    }

    pub fn view_from_model(row: OperationViewRecord) -> (r: Result<
        OperationViewRecord,
        OperationServiceError,
    >)
        ensures
            (match r {
                Ok(x) => x == row && row@.fault() is None,
                Err(e) => is_verdict(Err(e), row@.fault()),
            }),
    {
        Self::validate_view_record(&row)?;
        Ok(row)
    }

    pub fn view_workspace_from_model(row: OperationViewWorkspaceRecord) -> (r: Result<
        OperationViewWorkspaceRecord,
        OperationServiceError,
    >)
        ensures
            (match r {
                Ok(x) => x == row && row@.fault() is None,
                Err(e) => is_verdict(Err(e), row@.fault()),
            }),
    {
        Self::validate_view_workspace_record(&row)?;
        Ok(row)
    }

    /// The row that stores a reference.
    pub fn view_ref_row(record: &OperationViewRefRecord) -> (r: ViewRefRow)
        ensures
            r@ == record@.row(),
    {
        ViewRefRow {
            view_id: record.view_id.clone(),
            ref_kind: record.ref_kind.clone(),
            ref_name: record.ref_name.clone(),
            ref_remote: string_or_empty(copy_text(&record.ref_remote)),
            target_oid: record.target_oid.clone(),
        }
    }

    pub fn view_ref_from_model(row: ViewRefRow) -> (r: Result<
        OperationViewRefRecord,
        OperationServiceError,
    >)
        ensures
            (match r {
                Ok(x) => x@ == row@.record() && x@.fault() is None,
                Err(e) => is_verdict(Err(e), row@.record().fault()),
            }),
    {
        let no_remote = chars_of(row.ref_remote.as_str()).len() == 0;
        let record = OperationViewRefRecord {
            view_id: row.view_id,
            ref_kind: row.ref_kind,
            ref_name: row.ref_name,
            ref_remote: if no_remote {
                None
            } else {
                Some(row.ref_remote)
            },
            target_oid: row.target_oid,
        };
        Self::validate_view_ref_record(&record)?;
        Ok(record)
    }

    /// Checks the references that replace those of a view.
    pub fn replace_view_refs(view_id: &str, refs: &[OperationViewRefRecord]) -> (r: Result<
        (),
        OperationServiceError,
    >)
        ensures
            is_verdict(
                r,
                if text::is_blank(view_id@) {
                    Some("view_id must not be empty"@)
                } else {
                    refs_fault(
                        order::views(refs@),
                        view_id@,
                        "all view refs must use the same view_id"@,
                    )
                },
            ),
    {
        Self::check_view_id(view_id)?;
        Self::validate_refs(refs, view_id, "all view refs must use the same view_id")
    }

    /// Checks the view whose references or workspace pointers are listed.
    pub fn check_view_id(view_id: &str) -> (r: Result<(), OperationServiceError>)
        ensures
            is_verdict(
                r,
                if text::is_blank(view_id@) {
                    Some("view_id must not be empty"@)
                } else {
                    None
                },
            ),
    {
        if blank(view_id) {
            return Err(invalid("view_id must not be empty"));
        }
        Ok(())
    }

    /// The view of an operation, which must be there.
    pub fn require_view(operation: &OperationRecord, view: Option<OperationViewRecord>) -> (r: Result<
        OperationViewRecord,
        OperationServiceError,
    >)
        ensures
            (match r {
                Ok(v) => view == Some(v),
                Err(e) => view is None && e@ == ServiceErrorModel::Storage(
                    "operation '"@ + operation@.op_id + "' references missing view '"@
                        + operation@.view_id + "'"@,
                ),
            }),
    {
        match view {
            Some(v) => Ok(v),
            None => {
                let mut m = joined("operation '", operation.op_id.as_str());
                m.append("' references missing view '");
                m.append(operation.view_id.as_str());
                m.append("'");
                Err(OperationServiceError::Storage(m))
            },
        }
    }
}

impl V2OperationRow {
    /// Whether the row holds what the statements that store `m` write.
    pub open spec fn stores(self, m: RecordModel, view_oid: Seq<char>) -> bool {
        &&& self.op_id@ == m.op_id
        &&& self.repo_id@ == m.repo_id
        &&& text::opt_text(self.command_name) == Some(m.command_name)
        &&& text::opt_text(self.description) == Some(m.description)
        &&& text::opt_text(self.actor) == Some(m.actor)
        &&& text::opt_text(self.args_digest) == m.args_digest
        &&& self.start_ts == m.start_ts
        &&& self.end_ts == m.end_ts
        &&& self.status@ == m.status.v2_name()
        &&& text::opt_text(self.worktree_id) == Some(m.worktree_id)
        &&& text::opt_text(self.scope_provenance) == Some(m.scope_provenance)
        &&& self.restorable == Some(
            if m.restorable {
                1i64
            } else {
                0i64
            },
        )
        &&& text::opt_text(self.control_slot) == m.control_slot
        &&& text::opt_text(self.claim_owner) == m.claim_owner
        &&& self.scope_kind@ == m.scope_kind
        &&& self.post_view_oid@ == view_oid
    }
}

/// A record that was stored in version 2 is read back as it was, with the
/// stored view as its view.
pub proof fn law_v2_record_round_trip(row: V2OperationRow, m: RecordModel, view_oid: Seq<char>)
    requires
        row.stores(m, view_oid),
    ensures
        row.read() == Ok::<RecordModel, ServiceErrorModel>(
            RecordModel { view_id: view_oid, ..m },
        ),
{
    law_status_round_trip(m.status);
    assert(row.record(m.status) =~= RecordModel { view_id: view_oid, ..m });
}

} // verus!
