//! Secret-free schema diagnosis of the global configuration database.
//!
//! Files and the database are looked at by the caller. What may be opened,
//! what a report says and when it has to be discarded are decided here. No
//! text of the database reaches a report.

use chrono::{DateTime, SecondsFormat, Utc};
use vstd::prelude::*;
use vstd::string::*;

use crate::db::schema;
use crate::db::schema::{
    latest_schema_version_for_role, migrations_for_role, ConfigurationSchemaInspection,
    ConfigurationSchemaIssue, ConfigurationSchemaIssueKind, DatabaseRole, MigrationModel,
    SchemaCompatibility, SchemaLedger, SchemaManifest,
};
use crate::operation::store::joined;
use crate::order;
use crate::patch_mode::apply;
use crate::patch_mode::apply::debug_text;
use crate::text;
use crate::text::{decimal_text, signed_decimal_text};

verus! {

pub const UNREADABLE_HINT: &'static str = "Cannot safely inspect this file. Check the configured path and permissions; use a SQLite-consistent snapshot if necessary. Do not edit migration receipts manually.";

pub const METADATA_HINT: &'static str = "Schema metadata and mtime do not attest a producer. Repair is not available; do not edit SQLite receipts manually.";

pub const NEWER_BUILD_HINT: &'static str = "Install a producer-compatible newer Libra build before using unsupported defaults.";

pub const LEGACY_UNREADABLE_HINT: &'static str = "Legacy ledger metadata is unreadable; no legacy receipt or producer can be inferred.";

pub const CHANGED_HINT: &'static str = "The target changed during inspection. Stop concurrent writers or inspect a SQLite-consistent snapshot; do not infer repair eligibility from this report.";

pub const ABSENT_HINT: &'static str = "No global configuration file exists at this path; nothing was created.";

pub const HEADER_HINT: &'static str = "Invalid SQLite header or missing WAL/SHM sidecars. Do not create sidecars manually; retry with the owning application or a SQLite-consistent snapshot.";

//// Reports

/// What a report says of one ledger.
#[derive(Debug, PartialEq, Eq)]
pub struct LedgerReport {
    pub ledger: &'static str,
    pub observed_version: Option<String>,
    pub latest_version: Option<String>,
    pub readable: bool,
    pub verified_name: Option<String>,
}

/// What a [`LedgerReport`] says.
#[verifier::ext_equal]
pub struct LedgerModel {
    pub ledger: Seq<char>,
    pub observed_version: Option<Seq<char>>,
    pub latest_version: Option<Seq<char>>,
    pub readable: bool,
    pub verified_name: Option<Seq<char>>,
}

impl View for LedgerReport {
    type V = LedgerModel;

    open spec fn view(&self) -> LedgerModel {
        LedgerModel {
            ledger: self.ledger@,
            observed_version: text::opt_text(self.observed_version),
            latest_version: text::opt_text(self.latest_version),
            readable: self.readable,
            verified_name: text::opt_text(self.verified_name),
        }
    }
}

/// A version in decimal notation.
pub open spec fn version_text(v: Option<i64>) -> Option<Seq<char>> {
    match v {
        Some(n) => Some(text::signed_decimal(n as int)),
        None => None,
    }
}

fn show_version(v: Option<i64>) -> (r: Option<String>)
    ensures
        text::opt_text(r) == version_text(v),
{
    match v {
        Some(n) => Some(signed_decimal_text(n)),
        None => None,
    }
}

/// What a report says of a ledger before anything is looked at.
pub open spec fn fresh_ledger(
    manifest: SchemaManifest,
    role: DatabaseRole,
    ledger: SchemaLedger,
) -> LedgerModel {
    LedgerModel {
        ledger: ledger.table(),
        observed_version: None,
        latest_version: version_text(
            schema::newest(schema::migrations_of(manifest.migrations@, role)),
        ),
        readable: false,
        verified_name: None,
    }
}

impl LedgerReport {
    /// A report on a ledger before anything is looked at. A role that has no
    /// ledger has no report either.
    pub fn new(manifest: &SchemaManifest, role: DatabaseRole, ledger: SchemaLedger) -> (r: Result<
        Self,
        String,
    >)
        ensures
            (match r {
                Ok(report) => !(role is Derived) && report@ == fresh_ledger(
                    *manifest,
                    role,
                    ledger,
                ),
                Err(e) => role is Derived && e@
                    == "cannot load the built-in schema manifest; reinstall Libra"@,
            }),
    {
        match latest_schema_version_for_role(manifest, role) {
            Ok(latest) => Ok(
                LedgerReport {
                    ledger: ledger.table_name(),
                    observed_version: None,
                    latest_version: show_version(latest),
                    readable: false,
                    verified_name: None,
                },
            ),
            Err(_) => Err(
                "cannot load the built-in schema manifest; reinstall Libra".to_owned(),
            ),
        }
    }
}

/// What a report says of a schema that is not supported.
#[derive(Debug, PartialEq, Eq)]
pub struct IssueReport {
    pub ledger: &'static str,
    pub version: String,
    pub reason: &'static str,
}

/// What an [`IssueReport`] says.
#[verifier::ext_equal]
pub struct IssueModel {
    pub ledger: Seq<char>,
    pub version: Seq<char>,
    pub reason: Seq<char>,
}

impl View for IssueReport {
    type V = IssueModel;

    open spec fn view(&self) -> IssueModel {
        IssueModel { ledger: self.ledger@, version: self.version@, reason: self.reason@ }
    }
}

/// What a report says of an optional issue.
pub open spec fn opt_issue(o: Option<IssueReport>) -> Option<IssueModel> {
    match o {
        Some(i) => Some(i@),
        None => None,
    }
}

/// A diagnosis of the global configuration database.
#[derive(Debug, PartialEq, Eq)]
pub struct Report {
    pub report_version: u8,
    pub action: &'static str,
    pub scope: &'static str,
    pub role: &'static str,
    pub path_source: &'static str,
    pub configured_path: Option<String>,
    pub canonical_path: Option<String>,
    pub exists: Option<bool>,
    pub size_bytes: Option<u64>,
    pub modified_at_utc: Option<String>,
    pub configuration: LedgerReport,
    pub legacy: LedgerReport,
    pub classification: &'static str,
    pub issue: Option<IssueReport>,
    pub producer_disposition: &'static str,
    pub repair_eligible: bool,
    pub hints: Vec<&'static str>,
}

/// What a [`Report`] says.
#[verifier::ext_equal]
pub struct ReportModel {
    pub report_version: u8,
    pub action: Seq<char>,
    pub scope: Seq<char>,
    pub role: Seq<char>,
    pub path_source: Seq<char>,
    pub configured_path: Option<Seq<char>>,
    pub canonical_path: Option<Seq<char>>,
    pub exists: Option<bool>,
    pub size_bytes: Option<u64>,
    pub modified_at_utc: Option<Seq<char>>,
    pub configuration: LedgerModel,
    pub legacy: LedgerModel,
    pub classification: Seq<char>,
    pub issue: Option<IssueModel>,
    pub producer_disposition: Seq<char>,
    pub repair_eligible: bool,
    pub hints: Seq<Seq<char>>,
}

/// The texts of hints.
pub open spec fn hint_texts(s: Seq<&'static str>) -> Seq<Seq<char>> {
    s.map_values(|h: &'static str| h@)
}

impl View for Report {
    type V = ReportModel;

    open spec fn view(&self) -> ReportModel {
        ReportModel {
            report_version: self.report_version,
            action: self.action@,
            scope: self.scope@,
            role: self.role@,
            path_source: self.path_source@,
            configured_path: text::opt_text(self.configured_path),
            canonical_path: text::opt_text(self.canonical_path),
            exists: self.exists,
            size_bytes: self.size_bytes,
            modified_at_utc: text::opt_text(self.modified_at_utc),
            configuration: self.configuration@,
            legacy: self.legacy@,
            classification: self.classification@,
            issue: opt_issue(self.issue),
            producer_disposition: self.producer_disposition@,
            repair_eligible: self.repair_eligible,
            hints: hint_texts(self.hints@),
        }
    }
}

fn one_hint(hint: &'static str) -> (r: Vec<&'static str>)
    ensures
        hint_texts(r@) == seq![hint@],
{
    let mut v: Vec<&'static str> = Vec::new();
    v.push(hint);
    assert(hint_texts(v@) =~= seq![hint@]);
    v
}

fn push_hint(hints: &mut Vec<&'static str>, hint: &'static str)
    ensures
        hint_texts(final(hints)@) == hint_texts(old(hints)@).push(hint@),
{
    let ghost before = hint_texts(hints@);
    hints.push(hint);
    assert(hint_texts(hints@) =~= before.push(hint@));
}

/// The name under which a version is registered; of several, the first.
pub open spec fn first_name(s: Seq<MigrationModel>, version: i64) -> Option<Seq<char>>
    decreases s.len(),
{
    if s.len() == 0 {
        None
    } else if s[0].version == version {
        Some(s[0].name)
    } else {
        first_name(s.drop_first(), version)
    }
}

/// The name of a version that may be missing.
pub open spec fn verified_name(
    manifest: SchemaManifest,
    role: DatabaseRole,
    version: Option<i64>,
) -> Option<Seq<char>> {
    match version {
        Some(v) => first_name(schema::migrations_of(manifest.migrations@, role), v),
        None => None,
    }
}

pub fn registered_name(manifest: &SchemaManifest, role: DatabaseRole, version: Option<i64>) -> (r:
    Option<String>)
    ensures
        text::opt_text(r) == verified_name(*manifest, role, version),
{
    let v = match version {
        Some(v) => v,
        None => {
            return None;
        },
    };
    let migrations = migrations_for_role(manifest, role);
    let ghost m = order::views(migrations@);
    let mut i: usize = 0;
    assert(m.skip(0) =~= m);
    while i < migrations.len()
        invariant
            i <= migrations@.len(),
            m == order::views(migrations@),
            version == Some(v),
            m == schema::migrations_of(manifest.migrations@, role),
            first_name(m.skip(i as int), v) == first_name(m, v),
        decreases migrations@.len() - i,
    {
        assert(m.skip(i as int)[0] == migrations@[i as int]@);
        assert(m.skip(i as int).drop_first() =~= m.skip(i + 1));
        if migrations[i].version == v {
            return Some(migrations[i].name.clone());
        }
        i += 1;
    }
    None
}

/// How a compatibility is called.
pub open spec fn class_of(c: SchemaCompatibility) -> Seq<char> {
    match c {
        SchemaCompatibility::Compatible { .. } => "compatible"@,
        SchemaCompatibility::UpgradeRequired { .. } => "upgrade_required"@,
        SchemaCompatibility::UnsupportedFuture { .. } => "unsupported_future"@,
    }
}

/// How an issue is called.
pub open spec fn issue_class(issue: ConfigurationSchemaIssue) -> Seq<char> {
    match issue.kind {
        ConfigurationSchemaIssueKind::Future => "unsupported_future"@,
        ConfigurationSchemaIssueKind::UnregisteredReceipt => "unsupported_receipt"@,
    }
}

/// What the receipts say of a producer, which they never attest.
pub open spec fn disposition(
    barrier_present: bool,
    legacy: Option<i64>,
    base_receipt_present: bool,
) -> Seq<char> {
    if barrier_present {
        "configuration_barrier_unattested"@
    } else if legacy is Some {
        "known_repository_receipt_unattested"@
    } else if base_receipt_present {
        "configuration_receipt_unattested"@
    } else {
        "unattributed"@
    }
}

impl ReportModel {
    /// The report with what an inspection found. An issue is reported as such.
    /// Without one, names come from the manifest, never from the database; and
    /// where the legacy ledger is not readable, nothing is inferred.
    pub open spec fn with_inspection(
        self,
        manifest: SchemaManifest,
        found: ConfigurationSchemaInspection,
        legacy: Option<i64>,
        legacy_readable: bool,
    ) -> ReportModel {
        let current = schema::version_found(found.compatibility);
        let sound = found.issue is None && legacy_readable;
        let hints = if found.issue is Some {
            seq![METADATA_HINT@, NEWER_BUILD_HINT@]
        } else {
            seq![METADATA_HINT@]
        };
        ReportModel {
            configuration: LedgerModel {
                observed_version: version_text(current),
                readable: true,
                verified_name: if sound {
                    verified_name(manifest, DatabaseRole::GlobalConfig, current)
                } else {
                    self.configuration.verified_name
                },
                ..self.configuration
            },
            legacy: LedgerModel {
                observed_version: version_text(legacy),
                readable: legacy_readable,
                verified_name: if !sound {
                    self.legacy.verified_name
                } else if found.barrier_present {
                    Some(manifest.configuration_barrier.name@)
                } else {
                    verified_name(manifest, DatabaseRole::Repository, legacy)
                },
                ..self.legacy
            },
            classification: match found.issue {
                Some(issue) => issue_class(issue),
                None => if legacy_readable {
                    class_of(found.compatibility)
                } else {
                    "unreadable"@
                },
            },
            issue: match found.issue {
                Some(issue) => Some(
                    IssueModel {
                        ledger: issue.ledger.table(),
                        version: text::signed_decimal(issue.current_version as int),
                        reason: issue.why(),
                    },
                ),
                None => self.issue,
            },
            producer_disposition: if sound {
                disposition(found.barrier_present, legacy, found.base_receipt_present)
            } else {
                self.producer_disposition
            },
            hints: if legacy_readable {
                hints
            } else {
                hints.push(LEGACY_UNREADABLE_HINT@)
            },
            ..self
        }
    }

    /// The report on a target that changed while it was inspected: nothing of
    /// what was found is kept as a diagnosis.
    pub open spec fn discarded(self) -> ReportModel {
        ReportModel {
            classification: "changed_during_inspection"@,
            producer_disposition: "unattributed"@,
            configuration: LedgerModel { verified_name: None, ..self.configuration },
            legacy: LedgerModel { verified_name: None, ..self.legacy },
            issue: None,
            hints: seq![CHANGED_HINT@],
            ..self
        }
    }

    /// Whether the report names a producer, an issue or a verified receipt.
    pub open spec fn attributes(self) -> bool {
        ||| self.issue is Some
        ||| self.configuration.verified_name is Some
        ||| self.legacy.verified_name is Some
        ||| self.producer_disposition != "unattributed"@
    }
}

impl Report {
    /// A report before anything is looked at. `overridden` tells that the path
    /// was set in the environment.
    pub fn new(manifest: &SchemaManifest, path: Option<String>, overridden: bool) -> (r: Report)
        ensures
            r@ == (ReportModel {
                report_version: 1,
                action: "doctor"@,
                scope: "global"@,
                role: "global_config"@,
                path_source: if overridden {
                    "LIBRA_CONFIG_GLOBAL_DB"@
                } else {
                    "home"@
                },
                configured_path: text::opt_text(path),
                canonical_path: None,
                exists: None,
                size_bytes: None,
                modified_at_utc: None,
                configuration: fresh_ledger(
                    *manifest,
                    DatabaseRole::GlobalConfig,
                    SchemaLedger::Configuration,
                ),
                legacy: fresh_ledger(
                    *manifest,
                    DatabaseRole::Repository,
                    SchemaLedger::Repository,
                ),
                classification: "unreadable"@,
                issue: None,
                producer_disposition: "unattributed"@,
                repair_eligible: false,
                hints: seq![UNREADABLE_HINT@],
            }),
    {
        let configuration = LedgerReport::new(
            manifest,
            DatabaseRole::GlobalConfig,
            SchemaLedger::Configuration,
        ).unwrap();
        let legacy = LedgerReport::new(
            manifest,
            DatabaseRole::Repository,
            SchemaLedger::Repository,
        ).unwrap();
        Report {
            report_version: 1,
            action: "doctor",
            scope: "global",
            role: "global_config",
            path_source: if overridden {
                "LIBRA_CONFIG_GLOBAL_DB"
            } else {
                "home"
            },
            configured_path: path,
            canonical_path: None,
            exists: None,
            size_bytes: None,
            modified_at_utc: None,
            configuration,
            legacy,
            classification: "unreadable",
            issue: None,
            producer_disposition: "unattributed",
            repair_eligible: false,
            hints: one_hint(UNREADABLE_HINT),
        }
    }

    pub fn record_inspection(
        &mut self,
        manifest: &SchemaManifest,
        inspection: ConfigurationSchemaInspection,
        legacy: Option<i64>,
        legacy_readable: bool,
    )
        ensures
            final(self)@ == old(self)@.with_inspection(
                *manifest,
                inspection,
                legacy,
                legacy_readable,
            ),
    {
        let ghost before = self@;
        let (current, classification) = match inspection.compatibility {
            SchemaCompatibility::Compatible { current_version, .. } => (
                current_version,
                "compatible",
            ),
            SchemaCompatibility::UpgradeRequired { current_version, .. } => (
                current_version,
                "upgrade_required",
            ),
            SchemaCompatibility::UnsupportedFuture { current_version, .. } => (
                Some(current_version),
                "unsupported_future",
            ),
        };
        self.configuration.observed_version = show_version(current);
        self.configuration.readable = true;
        self.legacy.observed_version = show_version(legacy);
        self.legacy.readable = legacy_readable;
        self.classification = classification;
        let mut hints = one_hint(METADATA_HINT);
        if let Some(issue) = inspection.issue {
            self.classification =
            match issue.kind {
                ConfigurationSchemaIssueKind::Future => "unsupported_future",
                ConfigurationSchemaIssueKind::UnregisteredReceipt => "unsupported_receipt",
            };
            self.issue =
            Some(
                IssueReport {
                    ledger: issue.ledger.table_name(),
                    version: signed_decimal_text(issue.current_version),
                    reason: issue.reason(),
                },
            );
            push_hint(&mut hints, NEWER_BUILD_HINT);
        } else if !legacy_readable {
            self.classification = "unreadable";
        } else {
            self.configuration.verified_name =
            registered_name(manifest, DatabaseRole::GlobalConfig, current);
            self.legacy.verified_name =
            registered_name(manifest, DatabaseRole::Repository, legacy);
            self.producer_disposition =
            if inspection.barrier_present {
                self.legacy.verified_name = Some(manifest.configuration_barrier.name.clone());
                "configuration_barrier_unattested"
            } else if legacy.is_some() {
                "known_repository_receipt_unattested"
            } else if inspection.base_receipt_present {
                "configuration_receipt_unattested"
            } else {
                "unattributed"
            };
        }
        if !legacy_readable {
            push_hint(&mut hints, LEGACY_UNREADABLE_HINT);
        }
        self.hints = hints;
        assert(self@ =~= before.with_inspection(*manifest, inspection, legacy, legacy_readable));
    }

    /// Discards what was found of a target that changed meanwhile.
    pub fn changed(&mut self)
        ensures
            final(self)@ == old(self)@.discarded(),
    {
        let ghost before = self@;
        self.classification = "changed_during_inspection";
        self.producer_disposition = "unattributed";
        self.configuration.verified_name = None;
        self.legacy.verified_name = None;
        self.issue = None;
        self.hints = one_hint(CHANGED_HINT);
        assert(self@ =~= before.discarded());
    }

    /// Notes that there is no file.
    pub fn absent(&mut self)
        ensures
            final(self)@ == (ReportModel {
                exists: Some(false),
                classification: "absent"@,
                hints: seq![ABSENT_HINT@],
                ..old(self)@
            }),
    {
        self.exists = Some(false);
        self.classification = "absent";
        self.hints = one_hint(ABSENT_HINT);
    }

    /// Notes that the file cannot be inspected safely.
    pub fn refused(&mut self)
        ensures
            final(self)@ == (ReportModel {
                hints: old(self)@.hints.push(HEADER_HINT@),
                ..old(self)@
            }),
    {
        push_hint(&mut self.hints, HEADER_HINT);
    }

    /// Notes that the inspection failed. What the database said of it is not
    /// repeated.
    pub fn failed(&mut self)
        ensures
            final(self)@ == (ReportModel {
                classification: "unreadable"@,
                hints: seq![UNREADABLE_HINT@],
                ..old(self)@
            }),
    {
        self.classification = "unreadable";
        self.hints = one_hint(UNREADABLE_HINT);
    }
}

/// A report on a target that changed attributes nothing, and repair is never
/// offered.
pub proof fn law_changed_target_is_not_attributed(m: ReportModel)
    ensures
        !m.discarded().attributes(),
        m.discarded().repair_eligible == m.repair_eligible,
{
}

/// An issue, or a legacy ledger that cannot be read, is never turned into an
/// attribution of a fresh report.
pub proof fn law_unsound_inspection_attributes_no_producer(
    m: ReportModel,
    manifest: SchemaManifest,
    found: ConfigurationSchemaInspection,
    legacy: Option<i64>,
    legacy_readable: bool,
)
    requires
        !m.attributes(),
        found.issue is Some || !legacy_readable,
    ensures
        ({
            let r = m.with_inspection(manifest, found, legacy, legacy_readable);
            &&& r.producer_disposition == "unattributed"@
            &&& r.configuration.verified_name is None
            &&& r.legacy.verified_name is None
            &&& r.classification != "compatible"@
            &&& r.repair_eligible == m.repair_eligible
        }),
{
    reveal_strlit("compatible");
    reveal_strlit("unreadable");
    reveal_strlit("unsupported_future");
    reveal_strlit("unsupported_receipt");
    assert("compatible"@[0] == 'c' && "unreadable"@[0] == 'u');
    assert("compatible"@.len() == 10 && "unsupported_future"@.len() == 18
        && "unsupported_receipt"@.len() == 19);
}

//// Files

/// What a file is recognized by.
#[derive(Debug, Clone, Copy, PartialEq, Eq)]
pub struct FileStamp {
    pub len: u64,
    /// Nanoseconds since 1970, before it if negative.
    pub modified: i128,
    pub created: Option<i128>,
    /// Device, inode, and the seconds and nanoseconds of the last change of
    /// status, where the system has them.
    pub identity: Option<(u64, u64, i64, i64)>,
}

fn same_identity(a: Option<(u64, u64, i64, i64)>, b: Option<(u64, u64, i64, i64)>) -> (r: bool)
    ensures
        r == (a == b),
{
    match (a, b) {
        (Some(x), Some(y)) => x.0 == y.0 && x.1 == y.1 && x.2 == y.2 && x.3 == y.3,
        (None, None) => true,
        _ => false,
    }
}

fn same_stamp(a: FileStamp, b: FileStamp) -> (r: bool)
    ensures
        r == (a == b),
{
    let created = match (a.created, b.created) {
        (Some(x), Some(y)) => x == y,
        (None, None) => true,
        _ => false,
    };
    a.len == b.len && a.modified == b.modified && created && same_identity(a.identity, b.identity)
}

fn same_opt_stamp(a: Option<FileStamp>, b: Option<FileStamp>) -> (r: bool)
    ensures
        r == (a == b),
{
    match (a, b) {
        (Some(x), Some(y)) => same_stamp(x, y),
        (None, None) => true,
        _ => false,
    }
}

/// Whether a target is as it was: it still leads to the same file, which is as
/// it was, and so is its log. `after` is what the file is recognized by now,
/// where it can be told; `after_wal` is missing where that of the log cannot.
pub fn target_unchanged(
    same_target: bool,
    before: FileStamp,
    before_wal: Option<FileStamp>,
    after: Option<FileStamp>,
    after_wal: Option<Option<FileStamp>>,
) -> (r: bool)
    ensures
        r == (same_target && after == Some(before) && after_wal == Some(before_wal)),
{
    let file = same_opt_stamp(after, Some(before));
    let log = match after_wal {
        Some(w) => same_opt_stamp(w, before_wal),
        None => false,
    };
    same_target && file && log
}

/// The bytes that every SQLite file starts with.
pub open spec fn magic() -> Seq<u8> {
    seq![83u8, 81, 76, 105, 116, 101, 32, 102, 111, 114, 109, 97, 116, 32, 51, 0]
}

/// Whether a file may be opened without anything being created: it starts like
/// a SQLite file, and where it uses a log, the log and its index are there. A
/// header shorter than a hundred bytes says nothing.
pub fn safe_to_open(header: &[u8], has_wal: bool, has_shm: bool) -> (r: Option<bool>)
    ensures
        (match r {
            None => header@.len() < 100,
            Some(b) => header@.len() >= 100 && b == (magic().is_prefix_of(header@) && if header@[18]
                == 2 && header@[19] == 2 {
                has_wal && has_shm
            } else {
                header@[18] == 1 && header@[19] == 1
            }),
        }),
{
    if header.len() < 100 {
        return None;
    }
    let m: [u8; 16] = [83, 81, 76, 105, 116, 101, 32, 102, 111, 114, 109, 97, 116, 32, 51, 0];
    assert(m@ =~= magic());
    let mut i: usize = 0;
    while i < 16
        invariant
            i <= 16,
            m@ == magic(),
            header@.len() >= 100,
            forall|j: int| 0 <= j < i ==> header@[j] == m@[j],
        decreases 16 - i,
    {
        if header[i] != m[i] {
            assert(!magic().is_prefix_of(header@)) by {
                assert(header@.take(16)[i as int] != magic()[i as int]);
            }
            return Some(false);
        }
        i += 1;
    }
    assert(magic().is_prefix_of(header@)) by {
        assert(header@.subrange(0, 16) =~= magic());
    }
    if header[18] == 2 && header[19] == 2 {
        return Some(has_wal && has_shm);
    }
    Some(header[18] == 1 && header[19] == 1)
}

//// Times

/// A time in UTC, as RFC 3339 writes it; none where the calendar does not
/// reach.
pub uninterp spec fn rfc3339(seconds: i64, nanos: u32) -> Option<Seq<char>>;

/// chrono's `DateTime::<Utc>::from_timestamp`, then `to_rfc3339_opts` with as
/// many digits of the second as needed and `Z` for UTC. The text is a function
/// of the two numbers alone, and goes by the name [`rfc3339`].
#[verifier::external_body]
fn show_utc(seconds: i64, nanos: u32) -> (r: Option<String>)
    ensures
        text::opt_text(r) == rfc3339(seconds, nanos),
{
    DateTime::<Utc>::from_timestamp(seconds, nanos).map(
        |date| date.to_rfc3339_opts(SecondsFormat::AutoSi, true),
    )
}

/// The time that lies `nanos` nanoseconds after 1970, or before it.
pub open spec fn signed_nanos(before_epoch: bool, nanos: u128) -> int {
    if before_epoch {
        -(nanos as int)
    } else {
        nanos as int
    }
}

/// The time that lies `nanos` nanoseconds after 1970, or before it, in whole
/// seconds and nanoseconds of the second that follow them; none where the
/// seconds do not fit.
pub fn split_time(before_epoch: bool, nanos: u128) -> (r: Option<(i64, u32)>)
    ensures
        (match r {
            Some((seconds, sub)) => {
                &&& seconds == signed_nanos(before_epoch, nanos) / 1_000_000_000
                &&& sub == signed_nanos(before_epoch, nanos) % 1_000_000_000
            },
            None => signed_nanos(before_epoch, nanos) / 1_000_000_000 < i64::MIN || signed_nanos(
                before_epoch,
                nanos,
            ) / 1_000_000_000 > i64::MAX,
        }),
{
    let whole = nanos / 1_000_000_000;
    let rest = nanos % 1_000_000_000;
    if !before_epoch {
        if whole > i64::MAX as u128 {
            return None;
        }
        return Some((whole as i64, rest as u32));
    }
    if rest == 0 {
        if whole > 0x8000_0000_0000_0000 {
            return None;
        }
        if whole == 0x8000_0000_0000_0000 {
            return Some((i64::MIN, 0));
        }
        return Some((-(whole as i64), 0));
    }
    if whole >= 0x8000_0000_0000_0000 {
        return None;
    }
    Some((-(whole as i64) - 1, (1_000_000_000 - rest) as u32))
}

/// A time in UTC, as RFC 3339 writes it.
pub fn utc_time(before_epoch: bool, nanos: u128) -> (r: Option<String>)
    ensures
        ({
            let seconds = signed_nanos(before_epoch, nanos) / 1_000_000_000;
            let sub = signed_nanos(before_epoch, nanos) % 1_000_000_000;
            text::opt_text(r) == if i64::MIN <= seconds <= i64::MAX {
                rfc3339(seconds as i64, sub as u32)
            } else {
                None
            }
        }),
{
    match split_time(before_epoch, nanos) {
        Some((seconds, sub)) => show_utc(seconds, sub),
        None => None,
    }
}

//// Printing

/// How an optional flag is printed.
pub open spec fn flag_text(o: Option<bool>) -> Seq<char> {
    match o {
        Some(true) => "Some(true)"@,
        Some(false) => "Some(false)"@,
        None => "None"@,
    }
}

/// How an optional number is printed.
pub open spec fn number_text(o: Option<u64>) -> Seq<char> {
    match o {
        Some(n) => "Some("@ + text::decimal(n as nat) + ")"@,
        None => "None"@,
    }
}

/// The text that is there, or that it is not.
pub open spec fn or_unavailable(o: Option<Seq<char>>) -> Seq<char> {
    match o {
        Some(s) => s,
        None => "unavailable"@,
    }
}

/// How a truth value is printed.
pub open spec fn truth(b: bool) -> Seq<char> {
    if b {
        "true"@
    } else {
        "false"@
    }
}

/// The lines on a ledger.
pub open spec fn ledger_lines(m: LedgerModel) -> Seq<Seq<char>> {
    let first = "  "@ + m.ledger + ": observed="@ + or_unavailable(m.observed_version)
        + ", latest="@ + or_unavailable(m.latest_version) + ", readable="@ + truth(m.readable);
    match m.verified_name {
        Some(name) => seq![first, "    verified_name: "@ + name],
        None => seq![first],
    }
}

/// The lines on an issue.
pub open spec fn issue_lines(o: Option<IssueModel>) -> Seq<Seq<char>> {
    match o {
        Some(i) => seq![
            "  issue: "@ + i.ledger + " version "@ + i.version + ": "@ + i.reason,
        ],
        None => Seq::empty(),
    }
}

/// The lines of a report.
pub open spec fn report_text(m: ReportModel) -> Seq<Seq<char>> {
    seq![
        "Global configuration schema doctor"@,
        "  scope: "@ + m.scope + " ("@ + m.role + ")"@,
        "  path_source: "@ + m.path_source,
        "  exists: "@ + flag_text(m.exists) + ", size_bytes: "@ + number_text(m.size_bytes),
        "  path: "@ + apply::debug_of(or_unavailable(m.configured_path)),
        "  canonical_path: "@ + apply::debug_of(or_unavailable(m.canonical_path)),
        "  classification: "@ + m.classification,
    ] + ledger_lines(m.configuration) + ledger_lines(m.legacy) + seq![
        "  modified_at_utc: "@ + or_unavailable(m.modified_at_utc),
        "  producer_disposition: "@ + m.producer_disposition,
        "  repair_eligible: "@ + truth(m.repair_eligible),
    ] + issue_lines(m.issue) + m.hints.map_values(|h: Seq<char>| "  hint: "@ + h)
}

fn string_or_unavailable(o: &Option<String>) -> (r: String)
    ensures
        r@ == or_unavailable(text::opt_text(*o)),
{
    match o {
        Some(s) => s.clone(),
        None => "unavailable".to_owned(),
    }
}

fn show_truth(b: bool) -> (r: &'static str)
    ensures
        r@ == truth(b),
{
    if b {
        "true"
    } else {
        "false"
    }
}

fn push_line(lines: &mut Vec<String>, line: String)
    ensures
        text::texts(final(lines)@) == text::texts(old(lines)@).push(line@),
{
    let ghost before = text::texts(lines@);
    let ghost m = line@;
    lines.push(line);
    assert(text::texts(lines@) =~= before.push(m));
}

fn push_ledger(lines: &mut Vec<String>, ledger: &LedgerReport)
    ensures
        text::texts(final(lines)@) == text::texts(old(lines)@) + ledger_lines(ledger@),
{
    let ghost before = text::texts(lines@);
    let mut first = joined("  ", ledger.ledger);
    first.append(": observed=");
    first.append(string_or_unavailable(&ledger.observed_version).as_str());
    first.append(", latest=");
    first.append(string_or_unavailable(&ledger.latest_version).as_str());
    first.append(", readable=");
    first.append(show_truth(ledger.readable));
    push_line(lines, first);
    if let Some(name) = &ledger.verified_name {
        push_line(lines, joined("    verified_name: ", name.as_str()));
    }
    assert(text::texts(lines@) =~= before + ledger_lines(ledger@));
}

fn push_head(lines: &mut Vec<String>, report: &Report)
    ensures
        text::texts(final(lines)@) == text::texts(old(lines)@).push(
            "Global configuration schema doctor"@,
        ).push("  scope: "@ + report@.scope + " ("@ + report@.role + ")"@).push(
            "  path_source: "@ + report@.path_source,
        ).push(
            "  exists: "@ + flag_text(report@.exists) + ", size_bytes: "@ + number_text(
                report@.size_bytes,
            ),
        ).push("  path: "@ + apply::debug_of(or_unavailable(report@.configured_path))).push(
            "  canonical_path: "@ + apply::debug_of(or_unavailable(report@.canonical_path)),
        ).push("  classification: "@ + report@.classification),
{
    push_line(lines, "Global configuration schema doctor".to_owned());
    let mut scope = joined("  scope: ", report.scope);
    scope.append(" (");
    scope.append(report.role);
    scope.append(")");
    push_line(lines, scope);
    push_line(lines, joined("  path_source: ", report.path_source));
    let mut exists = joined(
        "  exists: ",
        match report.exists {
            Some(true) => "Some(true)",
            Some(false) => "Some(false)",
            None => "None",
        },
    );
    exists.append(", size_bytes: ");
    let size = match report.size_bytes {
        Some(n) => {
            let mut s = joined("Some(", decimal_text(n).as_str());
            s.append(")");
            s
        },
        None => "None".to_owned(),
    };
    exists.append(size.as_str());
    push_line(lines, exists);
    let path = string_or_unavailable(&report.configured_path);
    push_line(lines, joined("  path: ", debug_text(path.as_str()).as_str()));
    let canonical = string_or_unavailable(&report.canonical_path);
    push_line(lines, joined("  canonical_path: ", debug_text(canonical.as_str()).as_str()));
    push_line(lines, joined("  classification: ", report.classification));
}

fn push_hints(lines: &mut Vec<String>, hints: &[&'static str])
    ensures
        text::texts(final(lines)@) == text::texts(old(lines)@) + hint_texts(hints@).map_values(
            |h: Seq<char>| "  hint: "@ + h,
        ),
{
    let ghost start = text::texts(lines@);
    let ghost all = hint_texts(hints@).map_values(|h: Seq<char>| "  hint: "@ + h);
    let mut i: usize = 0;
    assert(start + all.take(0) =~= start);
    while i < hints.len()
        invariant
            i <= hints@.len(),
            all == hint_texts(hints@).map_values(|h: Seq<char>| "  hint: "@ + h),
            text::texts(lines@) == start + all.take(i as int),
        decreases hints@.len() - i,
    {
        let ghost before = text::texts(lines@);
        let line = joined("  hint: ", hints[i]);
        assert(line@ == all[i as int]);
        push_line(lines, line);
        assert(text::texts(lines@) =~= start + all.take(i + 1));
        i += 1;
    }
    assert(all.take(i as int) =~= all);
}

/// The lines of a report.
pub fn report_lines(report: &Report) -> (r: Vec<String>)
    ensures
        text::texts(r@) == report_text(report@),
{
    let mut lines: Vec<String> = Vec::new();
    assert(text::texts(lines@) =~= Seq::<Seq<char>>::empty());
    push_head(&mut lines, report);
    push_ledger(&mut lines, &report.configuration);
    push_ledger(&mut lines, &report.legacy);
    push_line(
        &mut lines,
        joined(
            "  modified_at_utc: ",
            string_or_unavailable(&report.modified_at_utc).as_str(),
        ),
    );
    push_line(&mut lines, joined("  producer_disposition: ", report.producer_disposition));
    push_line(&mut lines, joined("  repair_eligible: ", show_truth(report.repair_eligible)));
    if let Some(issue) = &report.issue {
        let mut line = joined("  issue: ", issue.ledger);
        line.append(" version ");
        line.append(issue.version.as_str());
        line.append(": ");
        line.append(issue.reason);
        push_line(&mut lines, line);
    }
    push_hints(&mut lines, report.hints.as_slice());
    assert(text::texts(lines@) =~= report_text(report@));
    lines
}

} // verus!
