//! What a diagnosis says of what was found.

use vstd::prelude::*;

use super::doctor;
use super::doctor::{
    ReportModel, LEGACY_UNREADABLE_HINT, METADATA_HINT, NEWER_BUILD_HINT,
};
use crate::db::schema::{
    ConfigurationSchemaInspection, ConfigurationSchemaIssueKind, SchemaCompatibility,
    SchemaManifest,
};
use crate::text;

verus! {

/// A sound database is reported by how its version stands; one whose legacy
/// ledger cannot be read as unreadable; and one with an issue by that issue.
pub proof fn law_report_says_what_was_found(
    before: ReportModel,
    manifest: SchemaManifest,
    found: ConfigurationSchemaInspection,
    legacy: Option<i64>,
    readable: bool,
)
    ensures
        ({
            let r = before.with_inspection(manifest, found, legacy, readable);
            &&& found.issue is None && readable ==> r.classification == match found.compatibility {
                SchemaCompatibility::Compatible { .. } => "compatible"@,
                SchemaCompatibility::UpgradeRequired { .. } => "upgrade_required"@,
                SchemaCompatibility::UnsupportedFuture { .. } => "unsupported_future"@,
            }
            &&& found.issue is None && !readable ==> r.classification == "unreadable"@
            &&& found.issue matches Some(i) ==> r.classification == match i.kind {
                ConfigurationSchemaIssueKind::Future => "unsupported_future"@,
                ConfigurationSchemaIssueKind::UnregisteredReceipt => "unsupported_receipt"@,
            }
            &&& found.issue matches Some(i) ==> r.issue matches Some(m) && m.version
                == text::signed_decimal(i.current_version as int)
            &&& found.issue is None ==> r.issue == before.issue
        }),
{
}

/// Nothing is inferred from what is not sound: with an issue, or where the
/// legacy ledger cannot be read, no receipt is named and no producer guessed.
pub proof fn law_unsound_findings_name_nobody(
    before: ReportModel,
    manifest: SchemaManifest,
    found: ConfigurationSchemaInspection,
    legacy: Option<i64>,
    readable: bool,
)
    requires
        found.issue is Some || !readable,
    ensures
        ({
            let r = before.with_inspection(manifest, found, legacy, readable);
            &&& r.producer_disposition == before.producer_disposition
            &&& r.configuration.verified_name == before.configuration.verified_name
            &&& r.legacy.verified_name == before.legacy.verified_name
        }),
{
}

/// A sound finding is attributed by the strongest receipt, and never more than
/// a receipt attests.
pub proof fn law_receipts_are_not_attested(
    before: ReportModel,
    manifest: SchemaManifest,
    found: ConfigurationSchemaInspection,
    legacy: Option<i64>,
)
    requires
        found.issue is None,
    ensures
        ({
            let r = before.with_inspection(manifest, found, legacy, true);
            r.producer_disposition == if found.barrier_present {
                "configuration_barrier_unattested"@
            } else if legacy is Some {
                "known_repository_receipt_unattested"@
            } else if found.base_receipt_present {
                "configuration_receipt_unattested"@
            } else {
                "unattributed"@
            }
        }),
{
}

/// A report hints at what can be done: a newer build where there is an issue,
/// and the legacy ledger where it cannot be read.
pub proof fn law_report_hints_at_what_to_do(
    before: ReportModel,
    manifest: SchemaManifest,
    found: ConfigurationSchemaInspection,
    legacy: Option<i64>,
    readable: bool,
)
    ensures
        ({
            let r = before.with_inspection(manifest, found, legacy, readable);
            &&& r.hints.contains(METADATA_HINT@)
            &&& found.issue is Some ==> r.hints.contains(NEWER_BUILD_HINT@)
            &&& !readable ==> r.hints.contains(LEGACY_UNREADABLE_HINT@)
        }),
{
    let r = before.with_inspection(manifest, found, legacy, readable);
    assert(r.hints[0] == METADATA_HINT@);
    if found.issue is Some {
        assert(r.hints[1] == NEWER_BUILD_HINT@);
    }
    if !readable {
        assert(r.hints.last() == LEGACY_UNREADABLE_HINT@);
    }
}

/// A report on a target that changed meanwhile keeps no diagnosis.
pub proof fn law_changed_target_has_no_diagnosis(before: ReportModel)
    ensures
        before.discarded().classification == "changed_during_inspection"@,
        before.discarded().issue is None,
        before.discarded().configuration.verified_name is None,
        before.discarded().legacy.verified_name is None,
        before.discarded().producer_disposition == "unattributed"@,
        !before.discarded().attributes(),
{
}

/// A file is opened only where nothing has to be created for it: it starts like
/// a SQLite file, and one that is kept with a log has the log and its index.
pub proof fn law_nothing_is_created_by_opening(
    header: &[u8],
    has_wal: bool,
    has_shm: bool,
    r: Option<bool>,
)
    requires
        call_ensures(doctor::safe_to_open, (header, has_wal, has_shm), r),
    ensures
        r is None <==> header@.len() < 100,
        r == Some(true) ==> vstd::utf8::encode_utf8("SQLite format 3"@).push(0u8).is_prefix_of(
            header@,
        ) && header@[18] == header@[19] && (header@[18] == 1 || (header@[18] == 2 && has_wal
            && has_shm)),
        header@.len() >= 100 && vstd::utf8::encode_utf8("SQLite format 3"@).push(0u8).is_prefix_of(
            header@,
        ) && header@[18] == 1 && header@[19] == 1 ==> r == Some(true),
{
    reveal_strlit("SQLite format 3");
    let t = "SQLite format 3"@;
    assert(t.len() == 15);
    assert(vstd::utf8::is_ascii_chars(t)) by {
        assert(forall|i: int| 0 <= i < 15 ==> '\0' <= #[trigger] t[i] <= '\u{7f}');
    }
    vstd::utf8::is_ascii_chars_encode_utf8(t);
    assert(vstd::utf8::encode_utf8(t).push(0u8) =~= doctor::magic());
}

} // verus!
