//! The schema manifest and the diagnosis of the configuration database.

use libra_core::config::doctor::{
    report_lines, safe_to_open, split_time, target_unchanged, utc_time, FileStamp, IssueReport,
    LedgerReport, Report,
};
use libra_core::db::schema::{
    bootstraps_for_role, configuration_has_kv, inspect_configuration_schema, inspect_schema,
    latest_schema_version_for_role, ledger_for_role, ledger_version_statement, migrations_for_role,
    plan_configuration_upgrade, receipts_statement, reject_future, require_configuration_role,
    require_supported, schema_manifest, top_ups_for_role, ConfigurationSchemaIssueKind,
    DatabaseRole, Migration, Receipt, SchemaCompatibility, SchemaLedger, SchemaManifest,
    SchemaTopUp, UpgradeStep, CONFIGURATION_BASE_NAME, CONFIGURATION_BASE_VERSION,
};

fn migration(version: i64, name: &str) -> Migration {
    Migration { version, name: name.to_string(), up: "SELECT 1".to_string(), down: None }
}

fn manifest() -> SchemaManifest {
    schema_manifest(
        vec![
            migration(2026010101, "first"),
            migration(2026070501, "operation_v2_branch_convergence"),
        ],
        "CREATE TABLE repository(id INTEGER)",
        "CREATE TABLE config(id INTEGER)",
    )
}

fn receipt(version: i64, name: &str) -> Receipt {
    Receipt { version, name: name.to_string() }
}

fn found(current: Option<i64>) -> SchemaCompatibility {
    inspect_schema(current, Some(CONFIGURATION_BASE_VERSION))
}

#[test]
fn header_gate_refuses_short_bad_magic_and_mixed_versions() {
    for bytes in [&b""[..], &b"short"[..]] {
        assert!(safe_to_open(bytes, false, false).is_none());
    }
    assert_eq!(safe_to_open(&[0_u8; 100], false, false), Some(false));
    let mut header = [0_u8; 100];
    header[..16].copy_from_slice(b"SQLite format 3\0");
    for versions in [[1, 2], [2, 1], [3, 3]] {
        header[18..20].copy_from_slice(&versions);
        assert_eq!(safe_to_open(&header, false, false), Some(false));
    }
}

#[test]
fn a_log_needs_both_of_its_files() {
    let mut header = [0_u8; 100];
    header[..16].copy_from_slice(b"SQLite format 3\0");
    header[18..20].copy_from_slice(&[1, 1]);
    assert_eq!(safe_to_open(&header, false, false), Some(true));
    header[18..20].copy_from_slice(&[2, 2]);
    assert_eq!(safe_to_open(&header, true, false), Some(false));
    assert_eq!(safe_to_open(&header, true, true), Some(true));
}

#[test]
fn mtime_handles_epoch_and_pre_epoch_without_panicking() {
    assert_eq!(utc_time(false, 0).as_deref(), Some("1970-01-01T00:00:00Z"));
    assert_eq!(
        utc_time(true, 1_000_000_000).as_deref(),
        Some("1969-12-31T23:59:59Z")
    );
}

#[test]
fn times_are_split_towards_the_past() {
    assert_eq!(split_time(false, 1_500_000_000), Some((1, 500_000_000)));
    assert_eq!(split_time(true, 1), Some((-1, 999_999_999)));
    assert_eq!(split_time(false, u128::MAX), None);
    assert_eq!(utc_time(false, u64::MAX as u128 * 1_000_000_000), None);
    assert_eq!(
        utc_time(false, 1_700_000_000 * 1_000_000_000).as_deref(),
        Some("2023-11-14T22:13:20Z")
    );
}

#[test]
fn file_fence_detects_database_and_wal_changes_and_discards_attribution() {
    let stamp = |len: u64| FileStamp { len, modified: 5, created: None, identity: Some((1, 2, 3, 4)) };
    let before = stamp(6);
    assert!(target_unchanged(true, before, None, Some(before), Some(None)));
    let wal = Some(stamp(7));
    assert!(!target_unchanged(true, before, None, Some(before), Some(wal)));
    assert!(!target_unchanged(true, before, wal, Some(stamp(16)), Some(wal)));
    let mut report = Report::new(&manifest(), Some("database".to_string()), true);
    report.producer_disposition = "known_repository_receipt_unattested";
    report.legacy.verified_name = Some("operation_v2_branch_convergence".to_string());
    report.issue = Some(IssueReport {
        ledger: "schema_versions",
        version: "1".into(),
        reason: "unsupported receipt",
    });
    report.changed();
    assert_eq!(report.classification, "changed_during_inspection");
    assert_eq!(report.producer_disposition, "unattributed");
    assert!(report.legacy.verified_name.is_none());
    assert!(report.issue.is_none());
    assert!(!report.repair_eligible);
}

#[test]
fn a_moved_target_or_an_unreadable_log_is_a_change() {
    let stamp = FileStamp { len: 6, modified: 5, created: Some(1), identity: None };
    assert!(!target_unchanged(false, stamp, None, Some(stamp), Some(None)));
    assert!(!target_unchanged(true, stamp, None, None, Some(None)));
    assert!(!target_unchanged(true, stamp, None, Some(stamp), None));
}

#[test]
fn a_role_without_a_ledger_has_no_report() {
    let report = |role| LedgerReport::new(&manifest(), role, SchemaLedger::Repository);
    assert_eq!(report(DatabaseRole::Repository).map(|r| r.readable), Ok(false));
    assert_eq!(
        report(DatabaseRole::Derived),
        Err("cannot load the built-in schema manifest; reinstall Libra".to_string())
    );
}

#[test]
fn reports_say_what_they_looked_at() {
    let mut report = Report::new(&manifest(), None, false);
    report.absent();
    assert_eq!(report.exists, Some(false));
    let text = report_lines(&report).join("\n");
    assert!(text.contains(report.classification), "{text}");
    let mut refused = Report::new(&manifest(), Some("/etc/libra.db".to_string()), false);
    refused.refused();
    assert!(report_lines(&refused).join("\n").contains("\"/etc/libra.db\""));
}

#[test]
fn an_inspection_attributes_a_registered_legacy_receipt() {
    let manifest = manifest();
    let inspection = inspect_configuration_schema(
        &manifest,
        DatabaseRole::GlobalConfig,
        found(Some(CONFIGURATION_BASE_VERSION)),
        &[receipt(CONFIGURATION_BASE_VERSION, CONFIGURATION_BASE_NAME)],
        &[],
    )
    .unwrap();
    assert!(inspection.issue.is_none());
    assert!(inspection.base_receipt_present);
    let mut report = Report::new(&manifest, Some("database".to_string()), false);
    report.record_inspection(&manifest, inspection, None, true);
    assert_eq!(
        report.configuration.observed_version.as_deref(),
        Some("2026090601")
    );
    assert!(report.issue.is_none());
}

#[test]
fn roles_share_tables_but_not_histories() {
    let manifest = manifest();
    let names = |role: DatabaseRole| -> Vec<String> {
        migrations_for_role(&manifest, role).into_iter().map(|m| m.name).collect()
    };
    assert_eq!(
        names(DatabaseRole::Repository),
        ["first", "operation_v2_branch_convergence"]
    );
    assert_eq!(names(DatabaseRole::GlobalConfig), [CONFIGURATION_BASE_NAME]);
    assert!(names(DatabaseRole::Derived).is_empty());
    let bootstraps: Vec<&str> = bootstraps_for_role(&manifest, DatabaseRole::SystemConfig)
        .into_iter()
        .map(|b| b.name)
        .collect();
    assert_eq!(bootstraps, ["configuration_legacy", "configuration_kv"]);
    assert_eq!(
        top_ups_for_role(&manifest, DatabaseRole::GlobalConfig),
        [SchemaTopUp::ConfigKv]
    );
    assert_eq!(
        latest_schema_version_for_role(&manifest, DatabaseRole::Repository),
        Ok(Some(2026070501))
    );
}

#[test]
fn ledgers_belong_to_roles() {
    assert_eq!(ledger_for_role(DatabaseRole::Repository), Ok(SchemaLedger::Repository));
    assert_eq!(ledger_for_role(DatabaseRole::SystemConfig), Ok(SchemaLedger::Configuration));
    assert!(ledger_for_role(DatabaseRole::Derived).is_err());
    assert!(require_configuration_role(DatabaseRole::Repository).is_err());
    assert_eq!(
        ledger_version_statement(SchemaLedger::Configuration).sql,
        "SELECT MAX(version) FROM configuration_schema_versions"
    );
    assert_eq!(SchemaLedger::Repository.table_name(), "schema_versions");
    assert_eq!(DatabaseRole::GlobalConfig.as_str(), "global configuration");
}

#[test]
fn versions_decide_compatibility() {
    assert_eq!(
        inspect_schema(Some(3), Some(3)),
        SchemaCompatibility::Compatible { current_version: Some(3), latest_version: Some(3) }
    );
    assert_eq!(
        inspect_schema(None, Some(3)),
        SchemaCompatibility::UpgradeRequired { current_version: None, latest_version: 3 }
    );
    assert_eq!(
        inspect_schema(Some(4), Some(3)),
        SchemaCompatibility::UnsupportedFuture { current_version: 4, latest_version: Some(3) }
    );
    assert!(reject_future(DatabaseRole::Repository, inspect_schema(Some(4), Some(3)), "3").is_err());
    assert!(reject_future(DatabaseRole::Repository, inspect_schema(Some(2), Some(3)), "3").is_ok());
}

#[test]
fn foreign_receipts_are_issues() {
    let manifest = manifest();
    let inspect = |own: &[Receipt], legacy: &[Receipt]| {
        inspect_configuration_schema(
            &manifest,
            DatabaseRole::GlobalConfig,
            found(own.last().map(|r| r.version)),
            own,
            legacy,
        )
        .unwrap()
    };
    let unregistered = inspect(&[receipt(7, "stranger")], &[]);
    let issue = unregistered.issue.expect("issue");
    assert_eq!(issue.kind, ConfigurationSchemaIssueKind::UnregisteredReceipt);
    assert_eq!(issue.current_version, 7);
    assert!(require_supported(unregistered, "2026090601").is_err());
    let future = inspect(
        &[
            receipt(CONFIGURATION_BASE_VERSION, CONFIGURATION_BASE_NAME),
            receipt(CONFIGURATION_BASE_VERSION + 1, "later"),
        ],
        &[],
    );
    assert_eq!(future.issue.expect("issue").kind, ConfigurationSchemaIssueKind::Future);
    let none = inspect(&[receipt(CONFIGURATION_BASE_VERSION, CONFIGURATION_BASE_NAME)], &[]);
    assert_eq!(
        require_supported(none, "2026090601"),
        Ok(found(Some(CONFIGURATION_BASE_VERSION)))
    );
}

#[test]
fn receipts_are_read_from_tables_only() {
    assert_eq!(receipts_statement(SchemaLedger::Configuration, None, 3), Ok(None));
    assert!(receipts_statement(SchemaLedger::Configuration, Some("view".to_string()), 3).is_err());
    let query = receipts_statement(SchemaLedger::Configuration, Some("table".to_string()), 3)
        .unwrap()
        .expect("query");
    assert!(query.sql.contains("configuration_schema_versions"), "{}", query.sql);
}

#[test]
fn upgrades_apply_what_is_missing() {
    let manifest = manifest();
    let plan = plan_configuration_upgrade(&manifest, DatabaseRole::GlobalConfig, found(None)).unwrap();
    assert_eq!(plan.report.applied_versions, vec![CONFIGURATION_BASE_VERSION]);
    assert!(plan.steps.contains(&UpgradeStep::Record {
        version: CONFIGURATION_BASE_VERSION,
        name: CONFIGURATION_BASE_NAME.to_string(),
    }));
    let again = plan_configuration_upgrade(
        &manifest,
        DatabaseRole::GlobalConfig,
        found(Some(CONFIGURATION_BASE_VERSION)),
    )
    .unwrap();
    assert!(again.report.applied_versions.is_empty());
    assert!(plan_configuration_upgrade(&manifest, DatabaseRole::Repository, found(None)).is_err());
}

#[test]
fn a_recorded_configuration_keeps_its_table() {
    assert_eq!(configuration_has_kv(DatabaseRole::GlobalConfig, true, None), Ok(true));
    assert_eq!(configuration_has_kv(DatabaseRole::GlobalConfig, false, None), Ok(false));
    assert!(configuration_has_kv(
        DatabaseRole::GlobalConfig,
        false,
        Some(CONFIGURATION_BASE_VERSION)
    )
    .is_err());
}
