//! Explicit database ownership, schema manifests and configuration migrations.
//!
//! Configuration migration receipts have a ledger of their own. Receipts of
//! the repository ledger in a configuration database are recognized, never
//! repaired. What the databases hold is read by the caller and judged here.

use vstd::prelude::*;
use vstd::string::*;

use crate::operation::store::joined;
use crate::order;
use crate::sql;
use crate::sql::{QueryModel, SqlQuery};
use crate::text;
use crate::text::{decimal_text, same, signed_decimal_text};

verus! {

//// Roles and ledgers

#[derive(Clone, Copy, Debug, Eq, PartialEq, Hash, Structural)]
pub enum DatabaseRole {
    Repository,
    GlobalConfig,
    SystemConfig,
    Derived,
}

impl DatabaseRole {
    /// The role as messages name it.
    pub open spec fn label(self) -> Seq<char> {
        match self {
            DatabaseRole::Repository => "repository"@,
            DatabaseRole::GlobalConfig => "global configuration"@,
            DatabaseRole::SystemConfig => "system configuration"@,
            DatabaseRole::Derived => "derived"@,
        }
    }

    /// Whether a database of the role holds configuration.
    pub open spec fn is_configuration(self) -> bool {
        self is GlobalConfig || self is SystemConfig
    }

    /// The role as messages name it.
    pub fn as_str(self) -> (r: &'static str)
        ensures
            r@ == self.label(),
    {
        match self {
            DatabaseRole::Repository => "repository",
            DatabaseRole::GlobalConfig => "global configuration",
            DatabaseRole::SystemConfig => "system configuration",
            DatabaseRole::Derived => "derived",
        }
    }
}

#[derive(Clone, Copy, Debug, Eq, PartialEq, Structural)]
pub enum SchemaLedger {
    Repository,
    Configuration,
}

impl SchemaLedger {
    /// The table that holds the ledger.
    pub open spec fn table(self) -> Seq<char> {
        match self {
            SchemaLedger::Repository => "schema_versions"@,
            SchemaLedger::Configuration => "configuration_schema_versions"@,
        }
    }

    pub fn table_name(self) -> (r: &'static str)
        ensures
            r@ == self.table(),
    {
        match self {
            SchemaLedger::Repository => "schema_versions",
            SchemaLedger::Configuration => "configuration_schema_versions",
        }
    }
}

/// Failure of a schema request.
#[derive(Debug, PartialEq, Eq)]
pub enum SchemaError {
    InvalidInput(String),
    Other(String),
}

/// What a [`SchemaError`] says.
pub enum SchemaErrorModel {
    InvalidInput(Seq<char>),
    Other(Seq<char>),
}

impl View for SchemaError {
    type V = SchemaErrorModel;

    open spec fn view(&self) -> SchemaErrorModel {
        match self {
            SchemaError::InvalidInput(m) => SchemaErrorModel::InvalidInput(m@),
            SchemaError::Other(m) => SchemaErrorModel::Other(m@),
        }
    }
}

impl SchemaError {
    /// The sentence that reports the error.
    pub fn message(&self) -> (r: &str)
        ensures
            (match self@ {
                SchemaErrorModel::InvalidInput(m) => r@ == m,
                SchemaErrorModel::Other(m) => r@ == m,
            }),
    {
        match self {
            SchemaError::InvalidInput(m) => m.as_str(),
            SchemaError::Other(m) => m.as_str(),
        }
    }
}

/// The ledger of a role; derived databases have none.
pub open spec fn ledger_of(role: DatabaseRole) -> Option<SchemaLedger> {
    match role {
        DatabaseRole::Repository => Some(SchemaLedger::Repository),
        DatabaseRole::Derived => None,
        _ => Some(SchemaLedger::Configuration),
    }
}

/// The error for a database without a ledger.
pub open spec fn no_ledger() -> SchemaErrorModel {
    SchemaErrorModel::InvalidInput(
        "derived databases are owned by their subsystem; use its schema API instead of runtime migrations"@,
    )
}

pub fn ledger_for_role(role: DatabaseRole) -> (r: Result<SchemaLedger, SchemaError>)
    ensures
        (match r {
            Ok(l) => ledger_of(role) == Some(l),
            Err(e) => ledger_of(role) is None && e@ == no_ledger(),
        }),
{
    match role {
        DatabaseRole::Repository => Ok(SchemaLedger::Repository),
        DatabaseRole::GlobalConfig | DatabaseRole::SystemConfig => Ok(SchemaLedger::Configuration),
        DatabaseRole::Derived => Err(
            SchemaError::InvalidInput(
                "derived databases are owned by their subsystem; use its schema API instead of runtime migrations".to_owned(),
            ),
        ),
    }
}

pub fn require_configuration_role(role: DatabaseRole) -> (r: Result<(), SchemaError>)
    ensures
        (match r {
            Ok(_) => role.is_configuration(),
            Err(e) => !role.is_configuration() && e@ == SchemaErrorModel::InvalidInput(
                role.label()
                    + " is not a configuration scope; use its role-specific database API"@,
            ),
        }),
{
    match role {
        DatabaseRole::GlobalConfig | DatabaseRole::SystemConfig => Ok(()),
        _ => Err(
            SchemaError::InvalidInput(
                joined(
                    role.as_str(),
                    " is not a configuration scope; use its role-specific database API",
                ),
            ),
        ),
    }
}

/// Whether a ledger is there.
pub fn ledger_exists_statement(ledger: SchemaLedger) -> (r: SqlQuery)
    ensures
        r@ == (QueryModel {
            sql: "SELECT 1 FROM sqlite_master WHERE type = 'table' AND name = ? LIMIT 1"@,
            values: seq![sql::text(ledger.table())],
        }),
{
    let mut q = SqlQuery::new(
        "SELECT 1 FROM sqlite_master WHERE type = 'table' AND name = ? LIMIT 1",
    );
    q.push_text(ledger.table_name());
    q
}

/// The newest version in a ledger.
pub fn ledger_version_statement(ledger: SchemaLedger) -> (r: SqlQuery)
    ensures
        r@ == (QueryModel {
            sql: "SELECT MAX(version) FROM "@ + ledger.table(),
            values: Seq::empty(),
        }),
{
    let mut q = SqlQuery::new("SELECT MAX(version) FROM ");
    q.push_sql(ledger.table_name());
    q
}

//// The manifest

pub const CONFIG_KV_SQL: &'static str = r#"
CREATE TABLE IF NOT EXISTS `config_kv` (
    `id` INTEGER PRIMARY KEY AUTOINCREMENT,
    `key` TEXT NOT NULL,
    `value` TEXT NOT NULL,
    `encrypted` INTEGER NOT NULL DEFAULT 0
);
CREATE INDEX IF NOT EXISTS idx_config_kv_key ON config_kv(`key`);
"#;

pub const CONFIGURATION_LEDGER_SQL: &'static str = r#"
CREATE TABLE IF NOT EXISTS configuration_schema_versions (
    version INTEGER PRIMARY KEY,
    name TEXT NOT NULL,
    applied_at TEXT NOT NULL
);
"#;

/// Takes the write lock of the configuration ledger and changes nothing.
pub const CONFIGURATION_LOCK_SQL: &'static str = "UPDATE configuration_schema_versions SET version = version WHERE 0";

pub const CONFIGURATION_BASE_VERSION: i64 = 2026090601;

pub const CONFIGURATION_BASE_NAME: &'static str = "configuration_base";

/// One step of a schema's history.
#[derive(Debug, PartialEq, Eq)]
pub struct Migration {
    pub version: i64,
    pub name: String,
    pub up: String,
    pub down: Option<String>,
}

/// What a [`Migration`] says.
#[verifier::ext_equal]
pub struct MigrationModel {
    pub version: i64,
    pub name: Seq<char>,
    pub up: Seq<char>,
    pub down: Option<Seq<char>>,
}

impl View for Migration {
    type V = MigrationModel;

    open spec fn view(&self) -> MigrationModel {
        MigrationModel {
            version: self.version,
            name: self.name@,
            up: self.up@,
            down: text::opt_text(self.down),
        }
    }
}

impl Clone for Migration {
    fn clone(&self) -> (r: Self)
        ensures
            r == *self,
    {
        Migration {
            version: self.version,
            name: self.name.clone(),
            up: self.up.clone(),
            down: crate::operation::store::copy_text(&self.down),
        }
    }
}

/// The roles that something belongs to.
#[derive(Clone, Copy, Debug, Eq, PartialEq, Structural)]
pub enum RoleSet {
    Repository,
    Configuration,
    Persistent,
}

impl RoleSet {
    /// Whether a role is one of the set.
    pub open spec fn has(self, role: DatabaseRole) -> bool {
        match self {
            RoleSet::Repository => role is Repository,
            RoleSet::Configuration => role.is_configuration(),
            RoleSet::Persistent => !(role is Derived),
        }
    }

    pub fn contains(self, role: DatabaseRole) -> (r: bool)
        ensures
            r == self.has(role),
    {
        match self {
            RoleSet::Repository => role == DatabaseRole::Repository,
            RoleSet::Configuration => role == DatabaseRole::GlobalConfig || role
                == DatabaseRole::SystemConfig,
            RoleSet::Persistent => role != DatabaseRole::Derived,
        }
    }
}

/// A migration and the roles it belongs to.
#[derive(Debug, Clone, PartialEq, Eq)]
pub struct ScopedMigration {
    pub roles: RoleSet,
    pub migration: Migration,
}

/// Statements that a new database starts with.
#[derive(Debug, Clone, Copy, PartialEq, Eq)]
pub struct BootstrapDefinition {
    pub name: &'static str,
    pub roles: RoleSet,
    pub sql: &'static str,
}

#[derive(Clone, Copy, Debug, Eq, PartialEq, Structural)]
pub enum SchemaTopUp {
    ConfigKv,
    AiProjection,
    AiRuntimeContract,
    RebaseShape,
    BisectShape,
}

#[derive(Clone, Copy, Debug, Eq, PartialEq, Structural)]
pub struct TopUpDefinition {
    pub roles: RoleSet,
    pub action: SchemaTopUp,
}

/// A receipt in the repository ledger of a configuration database that keeps
/// older readers away. It counts only beside the base receipt.
#[derive(Debug, PartialEq, Eq)]
pub struct ConfigurationBarrier {
    pub roles: RoleSet,
    pub version: i64,
    pub name: String,
    pub required_base_version: i64,
    pub required_base_name: String,
    pub legacy_ledger_sql: String,
}

/// The single manifest for runtime migrations, bootstraps and top-ups.
#[derive(Debug, PartialEq, Eq)]
pub struct SchemaManifest {
    pub migrations: Vec<ScopedMigration>,
    pub bootstraps: Vec<BootstrapDefinition>,
    pub top_ups: Vec<TopUpDefinition>,
    pub configuration_barrier: ConfigurationBarrier,
}

/// A migration as it stands in a manifest.
pub open spec fn scoped(m: ScopedMigration) -> (RoleSet, MigrationModel) {
    (m.roles, m.migration@)
}

/// A bootstrap as it stands in a manifest.
pub open spec fn bootstrap(b: BootstrapDefinition) -> (Seq<char>, RoleSet, Seq<char>) {
    (b.name@, b.roles, b.sql@)
}

fn scope_to_repository(repository_migrations: Vec<Migration>) -> (r: Vec<ScopedMigration>)
    ensures
        r@.map_values(|m: ScopedMigration| scoped(m)) == order::views(
            repository_migrations@,
        ).map_values(|m: MigrationModel| (RoleSet::Repository, m)),
{
    let ghost all = repository_migrations@;
    let mut rest = repository_migrations;
    let mut out: Vec<ScopedMigration> = Vec::new();
    while rest.len() > 0
        invariant
            out@.len() + rest@.len() == all.len(),
            rest@ == all.skip(out@.len() as int),
            forall|i: int|
                0 <= i < out@.len() ==> scoped(#[trigger] out@[i]) == (
                    RoleSet::Repository,
                    all[i]@,
                ),
        decreases rest@.len(),
    {
        let ghost k = out@.len() as int;
        let migration = rest.remove(0);
        assert(migration == all[k]);
        out.push(ScopedMigration { roles: RoleSet::Repository, migration });
        assert(rest@ =~= all.skip(k + 1));
    }
    assert(out@.map_values(|m: ScopedMigration| scoped(m)) =~= order::views(all).map_values(
        |m: MigrationModel| (RoleSet::Repository, m),
    ));
    out
}

/// The migration that configuration databases start from.
pub open spec fn base_migration(legacy_config_sql: Seq<char>) -> MigrationModel {
    MigrationModel {
        version: CONFIGURATION_BASE_VERSION,
        name: CONFIGURATION_BASE_NAME@,
        up: legacy_config_sql,
        down: None,
    }
}

/// The top-ups of the manifest.
pub open spec fn manifest_top_ups() -> Seq<TopUpDefinition> {
    seq![
        TopUpDefinition { roles: RoleSet::Persistent, action: SchemaTopUp::ConfigKv },
        TopUpDefinition { roles: RoleSet::Repository, action: SchemaTopUp::AiProjection },
        TopUpDefinition { roles: RoleSet::Repository, action: SchemaTopUp::AiRuntimeContract },
        TopUpDefinition { roles: RoleSet::Repository, action: SchemaTopUp::RebaseShape },
        TopUpDefinition { roles: RoleSet::Repository, action: SchemaTopUp::BisectShape },
    ]
}

/// The manifest: every historical migration belongs to repositories, and
/// configuration databases have one of their own.
pub fn schema_manifest(
    repository_migrations: Vec<Migration>,
    repository_sql: &'static str,
    legacy_config_sql: &'static str,
) -> (r: SchemaManifest)
    ensures
        r.migrations@.map_values(|m: ScopedMigration| scoped(m)) == order::views(
            repository_migrations@,
        ).map_values(|m: MigrationModel| (RoleSet::Repository, m)).push(
            (RoleSet::Configuration, base_migration(legacy_config_sql@)),
        ),
        r.bootstraps@.map_values(|b: BootstrapDefinition| bootstrap(b)) == seq![
            ("repository_core"@, RoleSet::Repository, repository_sql@),
            ("configuration_legacy"@, RoleSet::Configuration, legacy_config_sql@),
            ("configuration_kv"@, RoleSet::Configuration, CONFIG_KV_SQL@),
        ],
        r.top_ups@ == manifest_top_ups(),
        r.configuration_barrier.roles == RoleSet::Configuration,
        r.configuration_barrier.version == i64::MAX,
        r.configuration_barrier.name@ == "configuration_legacy_reader_barrier"@,
        r.configuration_barrier.required_base_version == CONFIGURATION_BASE_VERSION,
        r.configuration_barrier.required_base_name@ == CONFIGURATION_BASE_NAME@,
        r.configuration_barrier.legacy_ledger_sql@
            == "CREATE TABLE IF NOT EXISTS schema_versions (version INTEGER PRIMARY KEY, name TEXT NOT NULL, applied_at TEXT NOT NULL)"@,
{
    let ghost history = order::views(repository_migrations@).map_values(
        |m: MigrationModel| (RoleSet::Repository, m),
    );
    let mut migrations = scope_to_repository(repository_migrations);
    let ghost before = migrations@;
    migrations.push(
        ScopedMigration {
            roles: RoleSet::Configuration,
            migration: Migration {
                version: CONFIGURATION_BASE_VERSION,
                name: CONFIGURATION_BASE_NAME.to_owned(),
                up: legacy_config_sql.to_owned(),
                down: None,
            },
        },
    );
    assert(migrations@.map_values(|m: ScopedMigration| scoped(m)) =~= history.push(
        (RoleSet::Configuration, base_migration(legacy_config_sql@)),
    )) by {
        let mapped = migrations@.map_values(|m: ScopedMigration| scoped(m));
        assert(mapped.drop_last() =~= before.map_values(|m: ScopedMigration| scoped(m)));
        assert(mapped =~= mapped.drop_last().push(mapped.last()));
    }
    let mut bootstraps: Vec<BootstrapDefinition> = Vec::new();
    bootstraps.push(
        BootstrapDefinition {
            name: "repository_core",
            roles: RoleSet::Repository,
            sql: repository_sql,
        },
    );
    bootstraps.push(
        BootstrapDefinition {
            name: "configuration_legacy",
            roles: RoleSet::Configuration,
            sql: legacy_config_sql,
        },
    );
    bootstraps.push(
        BootstrapDefinition {
            name: "configuration_kv",
            roles: RoleSet::Configuration,
            sql: CONFIG_KV_SQL,
        },
    );
    let mut top_ups: Vec<TopUpDefinition> = Vec::new();
    top_ups.push(TopUpDefinition { roles: RoleSet::Persistent, action: SchemaTopUp::ConfigKv });
    top_ups.push(TopUpDefinition { roles: RoleSet::Repository, action: SchemaTopUp::AiProjection });
    top_ups.push(
        TopUpDefinition { roles: RoleSet::Repository, action: SchemaTopUp::AiRuntimeContract },
    );
    top_ups.push(TopUpDefinition { roles: RoleSet::Repository, action: SchemaTopUp::RebaseShape });
    top_ups.push(TopUpDefinition { roles: RoleSet::Repository, action: SchemaTopUp::BisectShape });
    SchemaManifest {
        migrations,
        bootstraps,
        top_ups,
        configuration_barrier: ConfigurationBarrier {
            roles: RoleSet::Configuration,
            version: i64::MAX,
            name: "configuration_legacy_reader_barrier".to_owned(),
            required_base_version: CONFIGURATION_BASE_VERSION,
            required_base_name: CONFIGURATION_BASE_NAME.to_owned(),
            legacy_ledger_sql:
                "CREATE TABLE IF NOT EXISTS schema_versions (version INTEGER PRIMARY KEY, name TEXT NOT NULL, applied_at TEXT NOT NULL)".to_owned(),
        },
    }
}

/// The migrations of a role, in their order.
pub open spec fn migrations_of(s: Seq<ScopedMigration>, role: DatabaseRole) -> Seq<MigrationModel>
    decreases s.len(),
{
    if s.len() == 0 {
        Seq::empty()
    } else if s.last().roles.has(role) {
        migrations_of(s.drop_last(), role).push(s.last().migration@)
    } else {
        migrations_of(s.drop_last(), role)
    }
}

pub fn migrations_for_role(manifest: &SchemaManifest, role: DatabaseRole) -> (r: Vec<Migration>)
    ensures
        order::views(r@) == migrations_of(manifest.migrations@, role),
{
    let ghost all = manifest.migrations@;
    let mut out: Vec<Migration> = Vec::new();
    let mut i: usize = 0;
    assert(all.take(0) =~= Seq::<ScopedMigration>::empty());
    assert(order::views(out@) =~= Seq::<MigrationModel>::empty());
    while i < manifest.migrations.len()
        invariant
            i <= all.len(),
            all == manifest.migrations@,
            order::views(out@) == migrations_of(all.take(i as int), role),
        decreases all.len() - i,
    {
        let ghost before = order::views(out@);
        let entry = &manifest.migrations[i];
        assert(all.take(i + 1).drop_last() =~= all.take(i as int));
        assert(all.take(i + 1).last() == *entry);
        if entry.roles.contains(role) {
            out.push(entry.migration.clone());
            assert(order::views(out@) =~= before.push(entry.migration@));
        }
        i += 1;
    }
    assert(all.take(i as int) =~= all);
    out
}

/// The statements that databases of a role start with, in their order.
pub open spec fn bootstraps_of(s: Seq<BootstrapDefinition>, role: DatabaseRole) -> Seq<
    BootstrapDefinition,
>
    decreases s.len(),
{
    if s.len() == 0 {
        Seq::empty()
    } else if s.last().roles.has(role) {
        bootstraps_of(s.drop_last(), role).push(s.last())
    } else {
        bootstraps_of(s.drop_last(), role)
    }
}

pub fn bootstraps_for_role<'a>(manifest: &'a SchemaManifest, role: DatabaseRole) -> (r: Vec<
    &'a BootstrapDefinition,
>)
    ensures
        r@.map_values(|b: &BootstrapDefinition| *b) == bootstraps_of(manifest.bootstraps@, role),
{
    let ghost all = manifest.bootstraps@;
    let mut out: Vec<&BootstrapDefinition> = Vec::new();
    let mut i: usize = 0;
    assert(all.take(0) =~= Seq::<BootstrapDefinition>::empty());
    assert(out@.map_values(|b: &BootstrapDefinition| *b) =~= Seq::<BootstrapDefinition>::empty());
    while i < manifest.bootstraps.len()
        invariant
            i <= all.len(),
            all == manifest.bootstraps@,
            out@.map_values(|b: &BootstrapDefinition| *b) == bootstraps_of(
                all.take(i as int),
                role,
            ),
        decreases all.len() - i,
    {
        let ghost before = out@.map_values(|b: &BootstrapDefinition| *b);
        let entry = &manifest.bootstraps[i];
        assert(all.take(i + 1).drop_last() =~= all.take(i as int));
        assert(all.take(i + 1).last() == *entry);
        if entry.roles.contains(role) {
            out.push(entry);
            assert(out@.map_values(|b: &BootstrapDefinition| *b) =~= before.push(*entry));
        }
        i += 1;
    }
    assert(all.take(i as int) =~= all);
    out
}

/// The top-ups of a role, in their order.
pub open spec fn top_ups_of(s: Seq<TopUpDefinition>, role: DatabaseRole) -> Seq<SchemaTopUp>
    decreases s.len(),
{
    if s.len() == 0 {
        Seq::empty()
    } else if s.last().roles.has(role) {
        top_ups_of(s.drop_last(), role).push(s.last().action)
    } else {
        top_ups_of(s.drop_last(), role)
    }
}

pub fn top_ups_for_role(manifest: &SchemaManifest, role: DatabaseRole) -> (r: Vec<SchemaTopUp>)
    ensures
        r@ == top_ups_of(manifest.top_ups@, role),
{
    let ghost all = manifest.top_ups@;
    let mut out: Vec<SchemaTopUp> = Vec::new();
    let mut i: usize = 0;
    assert(all.take(0) =~= Seq::<TopUpDefinition>::empty());
    while i < manifest.top_ups.len()
        invariant
            i <= all.len(),
            all == manifest.top_ups@,
            out@ == top_ups_of(all.take(i as int), role),
        decreases all.len() - i,
    {
        let entry = &manifest.top_ups[i];
        assert(all.take(i + 1).drop_last() =~= all.take(i as int));
        assert(all.take(i + 1).last() == *entry);
        if entry.roles.contains(role) {
            out.push(entry.action);
        }
        i += 1;
    }
    assert(all.take(i as int) =~= all);
    out
}

/// The newest version among migrations.
pub open spec fn newest(s: Seq<MigrationModel>) -> Option<i64>
    decreases s.len(),
{
    if s.len() == 0 {
        None
    } else {
        match newest(s.drop_last()) {
            Some(v) => if s.last().version > v {
                Some(s.last().version)
            } else {
                Some(v)
            },
            None => Some(s.last().version),
        }
    }
}

fn newest_version(migrations: &[Migration]) -> (r: Option<i64>)
    ensures
        r == newest(order::views(migrations@)),
{
    let ghost m = order::views(migrations@);
    let mut top: Option<i64> = None;
    let mut i: usize = 0;
    assert(m.take(0) =~= Seq::<MigrationModel>::empty());
    while i < migrations.len()
        invariant
            i <= migrations@.len(),
            m == order::views(migrations@),
            top == newest(m.take(i as int)),
        decreases migrations@.len() - i,
    {
        assert(m.take(i + 1).drop_last() =~= m.take(i as int));
        let version = migrations[i].version;
        top = match top {
            Some(v) => if version > v {
                Some(version)
            } else {
                Some(v)
            },
            None => Some(version),
        };
        i += 1;
    }
    assert(m.take(i as int) =~= m);
    top
}

/// The newest version that is registered for a role.
pub fn latest_schema_version_for_role(manifest: &SchemaManifest, role: DatabaseRole) -> (r: Result<
    Option<i64>,
    SchemaError,
>)
    ensures
        (match r {
            Ok(v) => !(role is Derived) && v == newest(migrations_of(manifest.migrations@, role)),
            Err(e) => role is Derived && e@ == no_ledger(),
        }),
{
    ledger_for_role(role)?;
    Ok(newest_version(migrations_for_role(manifest, role).as_slice()))
}

//// Compatibility

/// How a database's schema stands to this program.
#[derive(Clone, Copy, Debug, Eq, PartialEq, Structural)]
pub enum SchemaCompatibility {
    Compatible { current_version: Option<i64>, latest_version: Option<i64> },
    UpgradeRequired { current_version: Option<i64>, latest_version: i64 },
    UnsupportedFuture { current_version: i64, latest_version: Option<i64> },
}

/// How a current version stands to the latest that is known: beyond it, or
/// beyond none at all, it is of the future; another one needs an upgrade.
pub open spec fn compatibility(current: Option<i64>, latest: Option<i64>) -> SchemaCompatibility {
    match (current, latest) {
        (Some(c), None) => SchemaCompatibility::UnsupportedFuture {
            current_version: c,
            latest_version: None,
        },
        (Some(c), Some(l)) => if c > l {
            SchemaCompatibility::UnsupportedFuture { current_version: c, latest_version: Some(l) }
        } else if c < l {
            SchemaCompatibility::UpgradeRequired { current_version: Some(c), latest_version: l }
        } else {
            SchemaCompatibility::Compatible {
                current_version: Some(c),
                latest_version: Some(l),
            }
        },
        (None, Some(l)) => SchemaCompatibility::UpgradeRequired {
            current_version: None,
            latest_version: l,
        },
        (None, None) => SchemaCompatibility::Compatible {
            current_version: None,
            latest_version: None,
        },
    }
}

pub fn inspect_schema(current: Option<i64>, latest: Option<i64>) -> (r: SchemaCompatibility)
    ensures
        r == compatibility(current, latest),
{
    match (current, latest) {
        (Some(c), None) => SchemaCompatibility::UnsupportedFuture {
            current_version: c,
            latest_version: None,
        },
        (Some(c), Some(l)) => if c > l {
            SchemaCompatibility::UnsupportedFuture { current_version: c, latest_version: Some(l) }
        } else if c < l {
            SchemaCompatibility::UpgradeRequired { current_version: Some(c), latest_version: l }
        } else {
            SchemaCompatibility::Compatible {
                current_version: Some(c),
                latest_version: Some(l),
            }
        },
        (None, Some(l)) => SchemaCompatibility::UpgradeRequired {
            current_version: None,
            latest_version: l,
        },
        (None, None) => SchemaCompatibility::Compatible {
            current_version: None,
            latest_version: None,
        },
    }
}

/// Refuses a schema of the future. `latest` is the latest version as messages
/// show it.
pub fn reject_future(role: DatabaseRole, found: SchemaCompatibility, latest: &str) -> (r: Result<
    (),
    SchemaError,
>)
    ensures
        (match r {
            Ok(_) => !(found is UnsupportedFuture),
            Err(e) => found matches SchemaCompatibility::UnsupportedFuture { current_version, .. }
                && e@ == SchemaErrorModel::Other(
                role.label() + " database schema version "@ + text::signed_decimal(
                    current_version as int,
                ) + " is newer than this Libra binary supports (latest supported: "@ + latest@
                    + "); install a newer Libra binary"@,
            ),
        }),
{
    match found {
        SchemaCompatibility::UnsupportedFuture { current_version, .. } => {
            let mut m = joined(role.as_str(), " database schema version ");
            m.append(signed_decimal_text(current_version).as_str());
            m.append(" is newer than this Libra binary supports (latest supported: ");
            m.append(latest);
            m.append("); install a newer Libra binary");
            Err(SchemaError::Other(m))
        },
        _ => Ok(()),
    }
}

//// Receipts

/// A receipt of a ledger.
#[derive(Debug, PartialEq, Eq)]
pub struct Receipt {
    pub version: i64,
    pub name: String,
}

/// What a [`Receipt`] says.
#[verifier::ext_equal]
pub struct ReceiptModel {
    pub version: i64,
    pub name: Seq<char>,
}

impl View for Receipt {
    type V = ReceiptModel;

    open spec fn view(&self) -> ReceiptModel {
        ReceiptModel { version: self.version, name: self.name@ }
    }
}

/// The name under which a version is registered; of several, the last.
pub open spec fn registered_name(s: Seq<MigrationModel>, version: i64) -> Option<Seq<char>>
    decreases s.len(),
{
    if s.len() == 0 {
        None
    } else if s.last().version == version {
        Some(s.last().name)
    } else {
        registered_name(s.drop_last(), version)
    }
}

/// Whether a receipt is that of a registered migration.
pub open spec fn is_registered(s: Seq<MigrationModel>, r: ReceiptModel) -> bool {
    registered_name(s, r.version) == Some(r.name)
}

fn receipt_is_registered(migrations: &[Migration], receipt: &Receipt) -> (r: bool)
    ensures
        r == is_registered(order::views(migrations@), receipt@),
{
    let ghost m = order::views(migrations@);
    let mut n: usize = migrations.len();
    assert(m.take(n as int) =~= m);
    while n > 0
        invariant
            n <= migrations@.len(),
            m == order::views(migrations@),
            registered_name(m.take(n as int), receipt@.version) == registered_name(
                m,
                receipt@.version,
            ),
        decreases n,
    {
        assert(m.take(n as int).drop_last() =~= m.take(n - 1));
        assert(m.take(n as int).last() == migrations@[n - 1]@);
        if migrations[n - 1].version == receipt.version {
            return same(migrations[n - 1].name.as_str(), receipt.name.as_str());
        }
        n -= 1;
    }
    false
}

/// How far the receipts of a ledger are judged: which versions were accepted,
/// which was the first that was not, and whether the barrier is there.
#[verifier::ext_equal]
pub struct LedgerState {
    pub seen: Set<i64>,
    pub issue: Option<i64>,
    pub barrier: bool,
}

/// Judges receipts in their order. One is supported where it is registered or
/// the barrier, and no receipt of its version came before.
pub open spec fn judged(
    receipts: Seq<ReceiptModel>,
    registered: Seq<MigrationModel>,
    barrier: Option<ReceiptModel>,
) -> LedgerState
    decreases receipts.len(),
{
    if receipts.len() == 0 {
        LedgerState { seen: Set::empty(), issue: None, barrier: false }
    } else {
        let before = judged(receipts.drop_last(), registered, barrier);
        let r = receipts.last();
        let known = barrier == Some(r) || is_registered(registered, r);
        let supported = known && !before.seen.contains(r.version);
        LedgerState {
            seen: if known {
                before.seen.insert(r.version)
            } else {
                before.seen
            },
            issue: if before.issue is None && !supported {
                Some(r.version)
            } else {
                before.issue
            },
            barrier: before.barrier || (supported && barrier == Some(r)),
        }
    }
}

fn has_version(v: &[i64], x: i64) -> (r: bool)
    ensures
        r == v@.contains(x),
{
    let mut i: usize = 0;
    while i < v.len()
        invariant
            i <= v@.len(),
            forall|j: int| 0 <= j < i ==> v@[j] != x,
        decreases v@.len() - i,
    {
        if v[i] == x {
            return true;
        }
        i += 1;
    }
    false
}

/// The first version of a ledger that is not supported, and whether the
/// barrier is there. The barrier counts where `allow_barrier` says so.
fn judge_ledger(
    receipts: &[Receipt],
    registered: &[Migration],
    barrier: &ConfigurationBarrier,
    allow_barrier: bool,
) -> (r: (Option<i64>, bool))
    ensures
        ({
            let state = judged(
                order::views(receipts@),
                order::views(registered@),
                barrier_receipt(*barrier, allow_barrier),
            );
            r == (state.issue, state.barrier)
        }),
{
    let ghost m = order::views(receipts@);
    let ghost known_to = order::views(registered@);
    let ghost b = barrier_receipt(*barrier, allow_barrier);
    let mut seen: Vec<i64> = Vec::new();
    let mut issue: Option<i64> = None;
    let mut barrier_present = false;
    let mut i: usize = 0;
    assert(m.take(0) =~= Seq::<ReceiptModel>::empty());
    assert(seen@.to_set() =~= Set::<i64>::empty());
    while i < receipts.len()
        invariant
            i <= receipts@.len(),
            m == order::views(receipts@),
            known_to == order::views(registered@),
            b == barrier_receipt(*barrier, allow_barrier),
            judged(m.take(i as int), known_to, b) == (LedgerState {
                seen: seen@.to_set(),
                issue,
                barrier: barrier_present,
            }),
        decreases receipts@.len() - i,
    {
        let receipt = &receipts[i];
        assert(m.take(i + 1).drop_last() =~= m.take(i as int));
        assert(m.take(i + 1).last() == receipt@);
        let is_barrier = allow_barrier && receipt.version == barrier.version && same(
            receipt.name.as_str(),
            barrier.name.as_str(),
        );
        assert(is_barrier == (b == Some(receipt@))) by {
            if is_barrier {
                assert(b->0 =~= receipt@);
            }
        }
        let known = is_barrier || receipt_is_registered(registered, receipt);
        let fresh = !has_version(seen.as_slice(), receipt.version);
        if known {
            let ghost before = seen@;
            seen.push(receipt.version);
            assert(seen@.to_set() =~= before.to_set().insert(receipt.version)) by {
                assert(seen@ == before.push(receipt.version));
                assert forall|x: i64|
                    seen@.to_set().contains(x) == before.to_set().insert(
                        receipt.version,
                    ).contains(x) by {
                    if before.contains(x) {
                        let k = choose|k: int| 0 <= k < before.len() && before[k] == x;
                        assert(seen@[k] == x);
                    }
                    if x == receipt.version {
                        assert(seen@[before.len() as int] == x);
                    }
                    if seen@.contains(x) {
                        let k = choose|k: int| 0 <= k < seen@.len() && seen@[k] == x;
                        if k < before.len() {
                            assert(before[k] == x);
                        }
                    }
                }
            }
        }
        let supported = known && fresh;
        if supported && is_barrier {
            barrier_present = true;
        }
        if !supported && issue.is_none() {
            issue = Some(receipt.version);
        }
        i += 1;
    }
    assert(m.take(i as int) =~= m);
    (issue, barrier_present)
}

/// The receipt of the barrier, where it may count.
pub open spec fn barrier_receipt(barrier: ConfigurationBarrier, allowed: bool) -> Option<
    ReceiptModel,
> {
    if allowed {
        Some(ReceiptModel { version: barrier.version, name: barrier.name@ })
    } else {
        None
    }
}

#[derive(Clone, Copy, Debug, Eq, PartialEq, Structural)]
pub enum ConfigurationSchemaIssueKind {
    Future,
    UnregisteredReceipt,
}

#[derive(Clone, Copy, Debug, Eq, PartialEq, Structural)]
pub struct ConfigurationSchemaIssue {
    pub role: DatabaseRole,
    pub ledger: SchemaLedger,
    pub current_version: i64,
    pub latest_version: Option<i64>,
    pub kind: ConfigurationSchemaIssueKind,
}

impl ConfigurationSchemaIssue {
    /// Why the schema is not supported.
    pub open spec fn why(self) -> Seq<char> {
        match self.kind {
            ConfigurationSchemaIssueKind::Future => {
                "schema is newer than this Libra binary supports"@
            },
            ConfigurationSchemaIssueKind::UnregisteredReceipt => {
                "schema contains an unsupported migration receipt"@
            },
        }
    }

    pub fn reason(&self) -> (r: &'static str)
        ensures
            r@ == self.why(),
    {
        match self.kind {
            ConfigurationSchemaIssueKind::Future => {
                "schema is newer than this Libra binary supports"
            },
            ConfigurationSchemaIssueKind::UnregisteredReceipt => {
                "schema contains an unsupported migration receipt"
            },
        }
    }

    /// The sentence that reports the issue. `latest` is the latest version as
    /// messages show it.
    pub fn message(&self, latest: &str) -> (r: String)
        ensures
            r@ == self.role.label() + " database "@ + self.why() + " (ledger: "@
                + self.ledger.table() + ", version: "@ + text::signed_decimal(
                self.current_version as int,
            ) + ", latest supported: "@ + latest@
                + "); install a compatible newer Libra binary; do not edit migration receipts manually"@,
    {
        let mut m = joined(self.role.as_str(), " database ");
        m.append(self.reason());
        m.append(" (ledger: ");
        m.append(self.ledger.table_name());
        m.append(", version: ");
        m.append(signed_decimal_text(self.current_version).as_str());
        m.append(", latest supported: ");
        m.append(latest);
        m.append(
            "); install a compatible newer Libra binary; do not edit migration receipts manually",
        );
        m
    }
}

/// What an inspection of a configuration database found. An unsupported
/// inspection may stop early.
#[derive(Clone, Copy, Debug, Eq, PartialEq, Structural)]
pub struct ConfigurationSchemaInspection {
    pub compatibility: SchemaCompatibility,
    pub issue: Option<ConfigurationSchemaIssue>,
    pub base_receipt_present: bool,
    pub barrier_present: bool,
}

/// Whether the base receipt is among receipts.
pub open spec fn has_base(own: Seq<ReceiptModel>, barrier: ConfigurationBarrier) -> bool {
    own.contains(
        ReceiptModel {
            version: barrier.required_base_version,
            name: barrier.required_base_name@,
        },
    )
}

fn base_is_present(own: &[Receipt], barrier: &ConfigurationBarrier) -> (r: bool)
    ensures
        r == has_base(order::views(own@), *barrier),
{
    let ghost m = order::views(own@);
    let ghost base = ReceiptModel {
        version: barrier.required_base_version,
        name: barrier.required_base_name@,
    };
    let mut i: usize = 0;
    while i < own.len()
        invariant
            i <= own@.len(),
            m == order::views(own@),
            base == (ReceiptModel {
                version: barrier.required_base_version,
                name: barrier.required_base_name@,
            }),
            forall|j: int| 0 <= j < i ==> (#[trigger] own@[j])@ != base,
        decreases own@.len() - i,
    {
        if own[i].version == barrier.required_base_version && same(
            own[i].name.as_str(),
            barrier.required_base_name.as_str(),
        ) {
            assert(m[i as int] =~= base);
            return true;
        }
        i += 1;
    }
    assert(!m.contains(base)) by {
        if m.contains(base) {
            let j = choose|j: int| 0 <= j < m.len() && m[j] == base;
            assert(own@[j]@ == base);
        }
    }
    false
}

/// The role whose migrations a ledger's receipts are held against.
pub open spec fn ledger_migrations(manifest: SchemaManifest, ledger: SchemaLedger) -> Seq<
    MigrationModel,
> {
    match ledger {
        SchemaLedger::Repository => migrations_of(manifest.migrations@, DatabaseRole::Repository),
        SchemaLedger::Configuration => migrations_of(
            manifest.migrations@,
            DatabaseRole::GlobalConfig,
        ),
    }
}

/// The issue of a receipt that is not supported.
pub open spec fn unregistered(
    role: DatabaseRole,
    ledger: SchemaLedger,
    version: i64,
    registered: Seq<MigrationModel>,
) -> ConfigurationSchemaIssue {
    ConfigurationSchemaIssue {
        role,
        ledger,
        current_version: version,
        latest_version: newest(registered),
        kind: ConfigurationSchemaIssueKind::UnregisteredReceipt,
    }
}

/// What an inspection finds: a schema of the future ends it; else the own
/// ledger is judged, and where nothing is wrong with it the repository ledger,
/// in which the barrier counts beside the base receipt.
pub open spec fn inspection(
    manifest: SchemaManifest,
    role: DatabaseRole,
    found: SchemaCompatibility,
    own: Seq<ReceiptModel>,
    legacy: Seq<ReceiptModel>,
) -> ConfigurationSchemaInspection {
    match found {
        SchemaCompatibility::UnsupportedFuture { current_version, latest_version } => {
            ConfigurationSchemaInspection {
                compatibility: found,
                issue: Some(
                    ConfigurationSchemaIssue {
                        role,
                        ledger: SchemaLedger::Configuration,
                        current_version,
                        latest_version,
                        kind: ConfigurationSchemaIssueKind::Future,
                    },
                ),
                base_receipt_present: false,
                barrier_present: false,
            }
        },
        _ => {
            let base = has_base(own, manifest.configuration_barrier);
            let own_known = ledger_migrations(manifest, SchemaLedger::Configuration);
            let own_state = judged(own, own_known, None);
            let legacy_known = ledger_migrations(manifest, SchemaLedger::Repository);
            let legacy_state = judged(
                legacy,
                legacy_known,
                barrier_receipt(manifest.configuration_barrier, base),
            );
            if own_state.issue is Some {
                ConfigurationSchemaInspection {
                    compatibility: found,
                    issue: Some(
                        unregistered(
                            role,
                            SchemaLedger::Configuration,
                            own_state.issue->0,
                            own_known,
                        ),
                    ),
                    base_receipt_present: base,
                    barrier_present: false,
                }
            } else {
                ConfigurationSchemaInspection {
                    compatibility: found,
                    issue: match legacy_state.issue {
                        Some(v) => Some(
                            unregistered(role, SchemaLedger::Repository, v, legacy_known),
                        ),
                        None => None,
                    },
                    base_receipt_present: base,
                    barrier_present: legacy_state.barrier,
                }
            }
        },
    }
}

/// Judges the receipts of a configuration database. Those of the repository
/// ledger matter only where [`law_own_ledger_comes_first`] does not apply.
pub fn inspect_configuration_schema(
    manifest: &SchemaManifest,
    role: DatabaseRole,
    found: SchemaCompatibility,
    own: &[Receipt],
    legacy: &[Receipt],
) -> (r: Result<ConfigurationSchemaInspection, SchemaError>)
    ensures
        (match r {
            Ok(x) => role.is_configuration() && x == inspection(
                *manifest,
                role,
                found,
                order::views(own@),
                order::views(legacy@),
            ),
            Err(e) => !role.is_configuration() && e@ == SchemaErrorModel::InvalidInput(
                role.label()
                    + " is not a configuration scope; use its role-specific database API"@,
            ),
        }),
{
    require_configuration_role(role)?;
    if let SchemaCompatibility::UnsupportedFuture { current_version, latest_version } = found {
        return Ok(
            ConfigurationSchemaInspection {
                compatibility: found,
                issue: Some(
                    ConfigurationSchemaIssue {
                        role,
                        ledger: SchemaLedger::Configuration,
                        current_version,
                        latest_version,
                        kind: ConfigurationSchemaIssueKind::Future,
                    },
                ),
                base_receipt_present: false,
                barrier_present: false,
            },
        );
    }
    let barrier = &manifest.configuration_barrier;
    let base_receipt_present = base_is_present(own, barrier);
    let own_known = migrations_for_role(manifest, DatabaseRole::GlobalConfig);
    let (own_issue, _) = judge_ledger(own, own_known.as_slice(), barrier, false);
    if let Some(version) = own_issue {
        return Ok(
            ConfigurationSchemaInspection {
                compatibility: found,
                issue: Some(
                    ConfigurationSchemaIssue {
                        role,
                        ledger: SchemaLedger::Configuration,
                        current_version: version,
                        latest_version: newest_version(own_known.as_slice()),
                        kind: ConfigurationSchemaIssueKind::UnregisteredReceipt,
                    },
                ),
                base_receipt_present,
                barrier_present: false,
            },
        );
    }
    let legacy_known = migrations_for_role(manifest, DatabaseRole::Repository);
    let (legacy_issue, barrier_present) = judge_ledger(
        legacy,
        legacy_known.as_slice(),
        barrier,
        base_receipt_present,
    );
    let issue = match legacy_issue {
        Some(version) => Some(
            ConfigurationSchemaIssue {
                role,
                ledger: SchemaLedger::Repository,
                current_version: version,
                latest_version: newest_version(legacy_known.as_slice()),
                kind: ConfigurationSchemaIssueKind::UnregisteredReceipt,
            },
        ),
        None => None,
    };
    Ok(
        ConfigurationSchemaInspection {
            compatibility: found,
            issue,
            base_receipt_present,
            barrier_present,
        },
    )
}

/// What an inspection settles on: its issue as an error, else the
/// compatibility. `latest` is the issue's latest version as messages show it.
pub fn require_supported(found: ConfigurationSchemaInspection, latest: &str) -> (r: Result<
    SchemaCompatibility,
    SchemaError,
>)
    ensures
        (match r {
            Ok(c) => found.issue is None && c == found.compatibility,
            Err(e) => found.issue matches Some(issue) && e@ == SchemaErrorModel::Other(
                issue.role.label() + " database "@ + issue.why() + " (ledger: "@
                    + issue.ledger.table() + ", version: "@ + text::signed_decimal(
                    issue.current_version as int,
                ) + ", latest supported: "@ + latest@
                    + "); install a compatible newer Libra binary; do not edit migration receipts manually"@,
            ),
        }),
{
    match found.issue {
        Some(issue) => Err(SchemaError::Other(issue.message(latest))),
        None => Ok(found.compatibility),
    }
}

/// How many receipts of a ledger are read: an extra one beyond the registered
/// and the barrier is unknown or a duplicate in any case.
pub fn receipt_limit(manifest: &SchemaManifest, ledger: SchemaLedger) -> (r: usize)
    requires
        manifest.migrations@.len() + 2 <= usize::MAX,
    ensures
        r == ledger_migrations(*manifest, ledger).map_values(
            |m: MigrationModel| m.version,
        ).to_set().len() + 2,
{
    let role = match ledger {
        SchemaLedger::Repository => DatabaseRole::Repository,
        SchemaLedger::Configuration => DatabaseRole::GlobalConfig,
    };
    let migrations = migrations_for_role(manifest, role);
    let ghost versions = order::views(migrations@).map_values(|m: MigrationModel| m.version);
    proof {
        lemma_migrations_bounded(manifest.migrations@, role);
    }
    let mut seen: Vec<i64> = Vec::new();
    let mut i: usize = 0;
    assert(versions.take(0).to_set() =~= seen@.to_set());
    while i < migrations.len()
        invariant
            i <= migrations@.len(),
            versions == order::views(migrations@).map_values(|m: MigrationModel| m.version),
            seen@.no_duplicates(),
            seen@.len() <= i,
            seen@.to_set() == versions.take(i as int).to_set(),
        decreases migrations@.len() - i,
    {
        let version = migrations[i].version;
        let ghost before = seen@;
        let ghost taken = versions.take(i as int);
        assert(versions.take(i + 1) =~= taken.push(version));
        assert(before.to_set().contains(version) == taken.to_set().contains(version));
        if !has_version(seen.as_slice(), version) {
            seen.push(version);
            assert(seen@.to_set() =~= taken.push(version).to_set()) by {
                lemma_push_set(before, version);
                lemma_push_set(taken, version);
            }
        } else {
            assert(seen@.to_set() =~= taken.push(version).to_set()) by {
                lemma_push_set(taken, version);
            }
        }
        i += 1;
    }
    assert(versions.take(i as int) =~= versions);
    proof {
        seen@.unique_seq_to_set();
    }
    seen.len() + 2
}

proof fn lemma_push_set(s: Seq<i64>, x: i64)
    ensures
        s.push(x).to_set() == s.to_set().insert(x),
{
    assert forall|y: i64| s.push(x).to_set().contains(y) == s.to_set().insert(x).contains(y) by {
        if s.contains(y) {
            let k = choose|k: int| 0 <= k < s.len() && s[k] == y;
            assert(s.push(x)[k] == y);
        }
        if y == x {
            assert(s.push(x)[s.len() as int] == y);
        }
        if s.push(x).contains(y) {
            let k = choose|k: int| 0 <= k < s.push(x).len() && s.push(x)[k] == y;
            if k < s.len() {
                assert(s[k] == y);
            }
        }
    }
    assert(s.push(x).to_set() =~= s.to_set().insert(x));
}

proof fn lemma_migrations_bounded(s: Seq<ScopedMigration>, role: DatabaseRole)
    ensures
        migrations_of(s, role).len() <= s.len(),
    decreases s.len(),
{
    if s.len() > 0 {
        lemma_migrations_bounded(s.drop_last(), role);
    }
}

/// Whether there is a table or view of configuration values.
pub fn configuration_values_statement() -> (r: SqlQuery)
    ensures
        r@ == (QueryModel {
            sql: "SELECT 1 FROM sqlite_master WHERE type IN ('table', 'view') AND name = 'config_kv' LIMIT 1"@,
            values: Seq::empty(),
        }),
{
    SqlQuery::new("SELECT 1 FROM sqlite_master WHERE type IN ('table', 'view') AND name = 'config_kv' LIMIT 1")
}

/// Records that a migration of the configuration ledger was applied.
pub fn record_statement(version: i64, name: &str, applied_at: &str) -> (r: SqlQuery)
    ensures
        r@ == (QueryModel {
            sql: "INSERT INTO configuration_schema_versions (version, name, applied_at) VALUES (?, ?, ?)"@,
            values: seq![sql::number(version), sql::text(name@), sql::text(applied_at@)],
        }),
{
    let mut q = SqlQuery::new("INSERT INTO configuration_schema_versions (version, name, applied_at) VALUES (?, ?, ?)");
    q.push_number(version);
    q.push_text(name);
    q.push_text(applied_at);
    q
}

/// What kind of object a ledger's name stands for.
pub fn ledger_kind_statement(ledger: SchemaLedger) -> (r: SqlQuery)
    ensures
        r@ == (QueryModel {
            sql: "SELECT type FROM sqlite_master WHERE name = ? LIMIT 1"@,
            values: seq![sql::text(ledger.table())],
        }),
{
    let mut q = SqlQuery::new("SELECT type FROM sqlite_master WHERE name = ? LIMIT 1");
    q.push_text(ledger.table_name());
    q
}

/// The statement that reads the receipts of a ledger, newest first. `kind` is
/// what its name stands for: nothing to read where it stands for nothing, an
/// error where it is no table. Names are cut, so that none can be too long.
pub fn receipts_statement(ledger: SchemaLedger, kind: Option<String>, limit: usize) -> (r: Result<
    Option<SqlQuery>,
    SchemaError,
>)
    ensures
        (match r {
            Ok(None) => kind is None,
            Ok(Some(q)) => {
                &&& kind matches Some(k)
                &&& k@ == "table"@
                &&& q@ == (QueryModel {
                    sql:
                        "SELECT version, CASE WHEN typeof(name) = 'text' THEN substr(name, 1, 256) ELSE '' END FROM "@
                        + ledger.table() + " ORDER BY version DESC LIMIT "@ + text::decimal(
                        limit as nat,
                    ),
                    values: Seq::empty(),
                })
            },
            Err(e) => kind matches Some(k) && k@ != "table"@ && e@ == SchemaErrorModel::Other(
                "configuration ledger "@ + ledger.table()
                    + " is not a table; restore a verified backup"@,
            ),
        }),
{
    match kind {
        None => Ok(None),
        Some(k) => {
            if !same(k.as_str(), "table") {
                let mut m = joined("configuration ledger ", ledger.table_name());
                m.append(" is not a table; restore a verified backup");
                return Err(SchemaError::Other(m));
            }
            let mut q = SqlQuery::new(
                "SELECT version, CASE WHEN typeof(name) = 'text' THEN substr(name, 1, 256) ELSE '' END FROM ",
            );
            q.push_sql(ledger.table_name());
            q.push_sql(" ORDER BY version DESC LIMIT ");
            q.push_sql(decimal_text(limit as u64).as_str());
            Ok(Some(q))
        },
    }
}

/// Whether a configuration database has settings to read. One with receipts
/// but without the table is damaged.
pub fn configuration_has_kv(role: DatabaseRole, has_kv: bool, current: Option<i64>) -> (r: Result<
    bool,
    SchemaError,
>)
    ensures
        (match r {
            Ok(b) => role.is_configuration() && b == has_kv && (has_kv || current is None),
            Err(e) => if !role.is_configuration() {
                e@ == SchemaErrorModel::InvalidInput(
                    role.label()
                        + " is not a configuration scope; use its role-specific database API"@,
                )
            } else {
                !has_kv && current is Some && e@ == SchemaErrorModel::Other(
                    role.label()
                        + " database is missing its required config_kv table; restore a verified backup"@,
                )
            },
        }),
{
    require_configuration_role(role)?;
    if has_kv {
        return Ok(true);
    }
    if current.is_some() {
        return Err(
            SchemaError::Other(
                joined(
                    role.as_str(),
                    " database is missing its required config_kv table; restore a verified backup",
                ),
            ),
        );
    }
    Ok(false)
}

//// Upgrades

/// A step of an upgrade.
#[derive(Debug, PartialEq, Eq)]
pub enum UpgradeStep {
    Execute(String),
    /// Enters a receipt, with the time at which it is entered.
    Record { version: i64, name: String },
}

/// What an [`UpgradeStep`] says.
pub enum StepModel {
    Execute(Seq<char>),
    Record { version: i64, name: Seq<char> },
}

impl View for UpgradeStep {
    type V = StepModel;

    open spec fn view(&self) -> StepModel {
        match self {
            UpgradeStep::Execute(s) => StepModel::Execute(s@),
            UpgradeStep::Record { version, name } => StepModel::Record {
                version: *version,
                name: name@,
            },
        }
    }
}

/// What an upgrade reports.
#[derive(Debug, PartialEq, Eq)]
pub struct SchemaUpgradeReport {
    pub previous_version: Option<i64>,
    pub current_version: Option<i64>,
    pub latest_version: Option<i64>,
    pub applied_versions: Vec<i64>,
}

/// The steps of an upgrade and what it reports once they are done.
#[derive(Debug, PartialEq, Eq)]
pub struct UpgradePlan {
    pub steps: Vec<UpgradeStep>,
    pub report: SchemaUpgradeReport,
}

/// Whether a migration is still to be done.
pub open spec fn is_pending(m: MigrationModel, previous: Option<i64>) -> bool {
    previous is None || m.version > previous->0
}

/// The steps of bootstraps.
pub open spec fn bootstrap_steps(s: Seq<BootstrapDefinition>) -> Seq<StepModel> {
    s.map_values(|b: BootstrapDefinition| StepModel::Execute(b.sql@))
}

/// The steps of top-ups that configuration databases may have.
pub open spec fn top_up_steps(s: Seq<SchemaTopUp>) -> Seq<StepModel> {
    s.map_values(|t: SchemaTopUp| StepModel::Execute(CONFIG_KV_SQL@))
}

/// The steps of the pending migrations, each with its receipt first.
pub open spec fn migration_steps(s: Seq<MigrationModel>, previous: Option<i64>) -> Seq<StepModel>
    decreases s.len(),
{
    if s.len() == 0 {
        Seq::empty()
    } else {
        let before = migration_steps(s.drop_last(), previous);
        if is_pending(s.last(), previous) {
            before.push(
                StepModel::Record { version: s.last().version, name: s.last().name },
            ).push(StepModel::Execute(s.last().up))
        } else {
            before
        }
    }
}

/// The versions of the pending migrations.
pub open spec fn pending_versions(s: Seq<MigrationModel>, previous: Option<i64>) -> Seq<i64>
    decreases s.len(),
{
    if s.len() == 0 {
        Seq::empty()
    } else if is_pending(s.last(), previous) {
        pending_versions(s.drop_last(), previous).push(s.last().version)
    } else {
        pending_versions(s.drop_last(), previous)
    }
}

/// Whether all top-ups are such that configuration databases may have them.
pub open spec fn top_ups_allowed(s: Seq<SchemaTopUp>) -> bool {
    forall|i: int| 0 <= i < s.len() ==> #[trigger] s[i] is ConfigKv
}

/// The version that a database has, unless that is of the future.
pub open spec fn version_found(found: SchemaCompatibility) -> Option<i64> {
    match found {
        SchemaCompatibility::Compatible { current_version, .. } => current_version,
        SchemaCompatibility::UpgradeRequired { current_version, .. } => current_version,
        SchemaCompatibility::UnsupportedFuture { current_version, .. } => Some(current_version),
    }
}

/// The steps of an upgrade of a configuration database.
pub open spec fn upgrade_steps(
    manifest: SchemaManifest,
    role: DatabaseRole,
    previous: Option<i64>,
) -> Seq<StepModel> {
    bootstrap_steps(bootstraps_of(manifest.bootstraps@, role)) + top_up_steps(
        top_ups_of(manifest.top_ups@, role),
    ) + migration_steps(migrations_of(manifest.migrations@, role), previous)
}

fn push_bootstraps(found: &[&BootstrapDefinition], steps: &mut Vec<UpgradeStep>)
    ensures
        order::views(final(steps)@) == order::views(old(steps)@) + bootstrap_steps(
            found@.map_values(|b: &BootstrapDefinition| *b),
        ),
{
    let ghost start = order::views(steps@);
    let ghost all = bootstrap_steps(found@.map_values(|b: &BootstrapDefinition| *b));
    let mut i: usize = 0;
    assert(start + all.take(0) =~= start);
    while i < found.len()
        invariant
            i <= found@.len(),
            all == bootstrap_steps(found@.map_values(|b: &BootstrapDefinition| *b)),
            order::views(steps@) == start + all.take(i as int),
        decreases found@.len() - i,
    {
        let ghost before = order::views(steps@);
        let step = UpgradeStep::Execute(found[i].sql.to_owned());
        let ghost m = step@;
        assert(m == all[i as int]);
        steps.push(step);
        assert(order::views(steps@) =~= before.push(m));
        assert(before.push(m) =~= start + all.take(i + 1));
        i += 1;
    }
    assert(all.take(i as int) =~= all);
}

fn push_top_ups(role: DatabaseRole, found: &[SchemaTopUp], steps: &mut Vec<UpgradeStep>) -> (r:
    Result<(), SchemaError>)
    ensures
        (match r {
            Ok(_) => top_ups_allowed(found@) && order::views(final(steps)@) == order::views(
                old(steps)@,
            ) + top_up_steps(found@),
            Err(e) => !top_ups_allowed(found@) && e@ == SchemaErrorModel::Other(
                "repository top-up is not permitted for "@ + role.label(),
            ),
        }),
{
    let ghost start = order::views(steps@);
    let ghost all = top_up_steps(found@);
    let mut i: usize = 0;
    assert(start + all.take(0) =~= start);
    while i < found.len()
        invariant
            i <= found@.len(),
            all == top_up_steps(found@),
            forall|j: int| 0 <= j < i ==> #[trigger] found@[j] is ConfigKv,
            order::views(steps@) == start + all.take(i as int),
        decreases found@.len() - i,
    {
        let ghost before = order::views(steps@);
        match found[i] {
            SchemaTopUp::ConfigKv => {
                let step = UpgradeStep::Execute(CONFIG_KV_SQL.to_owned());
                let ghost m = step@;
                assert(m == all[i as int]);
                steps.push(step);
                assert(order::views(steps@) =~= before.push(m));
                assert(before.push(m) =~= start + all.take(i + 1));
            },
            _ => {
                assert(!(found@[i as int] is ConfigKv));
                return Err(
                    SchemaError::Other(
                        joined("repository top-up is not permitted for ", role.as_str()),
                    ),
                );
            },
        }
        i += 1;
    }
    assert(all.take(i as int) =~= all);
    Ok(())
}

fn push_migrations(
    migrations: Vec<Migration>,
    previous: Option<i64>,
    steps: &mut Vec<UpgradeStep>,
) -> (r: Vec<i64>)
    ensures
        order::views(final(steps)@) == order::views(old(steps)@) + migration_steps(
            order::views(migrations@),
            previous,
        ),
        r@ == pending_versions(order::views(migrations@), previous),
{
    let ghost start = order::views(steps@);
    let ghost all = order::views(migrations@);
    let mut applied: Vec<i64> = Vec::new();
    let mut i: usize = 0;
    assert(all.take(0) =~= Seq::<MigrationModel>::empty());
    assert(start + migration_steps(all.take(0), previous) =~= start);
    while i < migrations.len()
        invariant
            i <= migrations@.len(),
            all == order::views(migrations@),
            order::views(steps@) == start + migration_steps(all.take(i as int), previous),
            applied@ == pending_versions(all.take(i as int), previous),
        decreases migrations@.len() - i,
    {
        let ghost before = order::views(steps@);
        let ghost done = migration_steps(all.take(i as int), previous);
        let migration = &migrations[i];
        assert(all.take(i + 1).drop_last() =~= all.take(i as int));
        assert(all.take(i + 1).last() == migration@);
        let pending = match previous {
            Some(v) => migration.version > v,
            None => true,
        };
        if pending {
            let receipt = UpgradeStep::Record {
                version: migration.version,
                name: migration.name.clone(),
            };
            let change = UpgradeStep::Execute(migration.up.clone());
            let ghost a = receipt@;
            let ghost b = change@;
            steps.push(receipt);
            steps.push(change);
            applied.push(migration.version);
            assert(order::views(steps@) =~= before.push(a).push(b));
            assert(before.push(a).push(b) =~= start + done.push(a).push(b));
        }
        i += 1;
    }
    assert(all.take(i as int) =~= all);
    applied
}

/// Plans the upgrade of a configuration database whose compatibility was found
/// under the ledger's lock. Nothing is left to do where it is of the latest
/// version.
pub fn plan_configuration_upgrade(
    manifest: &SchemaManifest,
    role: DatabaseRole,
    found: SchemaCompatibility,
) -> (r: Result<UpgradePlan, SchemaError>)
    requires
        role.is_configuration(),
    ensures
        (match r {
            Ok(plan) => {
                let previous = version_found(found);
                let latest = newest(migrations_of(manifest.migrations@, role));
                &&& !(found is UnsupportedFuture)
                &&& plan.report.previous_version == previous
                &&& plan.report.current_version == latest
                &&& plan.report.latest_version == latest
                &&& if previous == latest {
                    plan.steps@.len() == 0 && plan.report.applied_versions@.len() == 0
                } else {
                    &&& top_ups_allowed(top_ups_of(manifest.top_ups@, role))
                    &&& order::views(plan.steps@) == upgrade_steps(*manifest, role, previous)
                    &&& plan.report.applied_versions@ == pending_versions(
                        migrations_of(manifest.migrations@, role),
                        previous,
                    )
                }
            },
            Err(e) => if found is UnsupportedFuture {
                e@ == SchemaErrorModel::Other(
                    role.label() + " schema advanced concurrently; install a newer Libra binary"@,
                )
            } else {
                &&& version_found(found) != newest(migrations_of(manifest.migrations@, role))
                &&& !top_ups_allowed(top_ups_of(manifest.top_ups@, role))
                &&& e@ == SchemaErrorModel::Other(
                    "repository top-up is not permitted for "@ + role.label(),
                )
            },
        }),
{
    let previous = match found {
        SchemaCompatibility::Compatible { current_version, .. } => current_version,
        SchemaCompatibility::UpgradeRequired { current_version, .. } => current_version,
        SchemaCompatibility::UnsupportedFuture { .. } => {
            return Err(
                SchemaError::Other(
                    joined(
                        role.as_str(),
                        " schema advanced concurrently; install a newer Libra binary",
                    ),
                ),
            );
        },
    };
    let migrations = migrations_for_role(manifest, role);
    let latest = newest_version(migrations.as_slice());
    let mut steps: Vec<UpgradeStep> = Vec::new();
    let mut applied: Vec<i64> = Vec::new();
    let unchanged = match (previous, latest) {
        (Some(a), Some(b)) => a == b,
        (None, None) => true,
        _ => false,
    };
    if !unchanged {
        assert(order::views(steps@) =~= Seq::<StepModel>::empty());
        let bootstraps = bootstraps_for_role(manifest, role);
        push_bootstraps(bootstraps.as_slice(), &mut steps);
        let top_ups = top_ups_for_role(manifest, role);
        push_top_ups(role, top_ups.as_slice(), &mut steps)?;
        applied = push_migrations(migrations, previous, &mut steps);
        assert(order::views(steps@) =~= upgrade_steps(*manifest, role, previous));
    }
    Ok(
        UpgradePlan {
            steps,
            report: SchemaUpgradeReport {
                previous_version: previous,
                current_version: latest,
                latest_version: latest,
                applied_versions: applied,
            },
        },
    )
}

//// Laws

/// The manifest asks of a configuration database nothing but its settings
/// table.
pub proof fn law_configuration_needs_only_its_table(role: DatabaseRole)
    requires
        role.is_configuration(),
    ensures
        top_ups_of(manifest_top_ups(), role) == seq![SchemaTopUp::ConfigKv],
        top_ups_allowed(top_ups_of(manifest_top_ups(), role)),
{
    let all = manifest_top_ups();
    assert(all.take(5) =~= all);
    assert(all.take(5).drop_last() =~= all.take(4));
    assert(all.take(4).drop_last() =~= all.take(3));
    assert(all.take(3).drop_last() =~= all.take(2));
    assert(all.take(2).drop_last() =~= all.take(1));
    assert(all.take(1).drop_last() =~= all.take(0));
    assert(top_ups_of(all.take(0), role) =~= Seq::<SchemaTopUp>::empty());
    assert(top_ups_of(all.take(1), role) =~= seq![SchemaTopUp::ConfigKv]);
    assert(top_ups_of(all.take(2), role) =~= seq![SchemaTopUp::ConfigKv]);
    assert(top_ups_of(all.take(3), role) =~= seq![SchemaTopUp::ConfigKv]);
    assert(top_ups_of(all.take(4), role) =~= seq![SchemaTopUp::ConfigKv]);
}

/// A schema of the future is reported as such, whatever the ledgers hold.
pub proof fn law_future_is_reported_first(
    manifest: SchemaManifest,
    role: DatabaseRole,
    found: SchemaCompatibility,
    own: Seq<ReceiptModel>,
    legacy: Seq<ReceiptModel>,
)
    requires
        found is UnsupportedFuture,
    ensures
        inspection(manifest, role, found, own, legacy).issue matches Some(issue)
            && issue.kind is Future,
        inspection(manifest, role, found, own, legacy) == inspection(
            manifest,
            role,
            found,
            Seq::empty(),
            Seq::empty(),
        ),
{
}

/// Where the own ledger has an issue, the repository ledger does not matter.
pub proof fn law_own_ledger_comes_first(
    manifest: SchemaManifest,
    role: DatabaseRole,
    found: SchemaCompatibility,
    own: Seq<ReceiptModel>,
    legacy: Seq<ReceiptModel>,
)
    requires
        inspection(manifest, role, found, own, Seq::empty()).issue is Some,
    ensures
        inspection(manifest, role, found, own, legacy) == inspection(
            manifest,
            role,
            found,
            own,
            Seq::empty(),
        ),
{
}

proof fn lemma_judged(
    receipts: Seq<ReceiptModel>,
    registered: Seq<MigrationModel>,
    barrier: Option<ReceiptModel>,
)
    ensures
        ({
            let state = judged(receipts, registered, barrier);
            &&& state.barrier ==> barrier is Some && receipts.contains(barrier->0)
            &&& state.issue is None ==> forall|i: int|
                0 <= i < receipts.len() ==> barrier == Some(#[trigger] receipts[i])
                    || is_registered(registered, receipts[i])
            &&& state.issue is None ==> forall|i: int|
                0 <= i < receipts.len() ==> state.seen.contains(
                    (#[trigger] receipts[i]).version,
                )
            &&& state.issue is None ==> forall|i: int, j: int|
                0 <= i < j < receipts.len() ==> (#[trigger] receipts[i]).version != (
                #[trigger] receipts[j]).version
        }),
    decreases receipts.len(),
{
    if receipts.len() > 0 {
        let front = receipts.drop_last();
        lemma_judged(front, registered, barrier);
        let before = judged(front, registered, barrier);
        let state = judged(receipts, registered, barrier);
        let last = receipts.len() - 1;
        if state.barrier {
            if before.barrier {
                let k = choose|k: int| 0 <= k < front.len() && front[k] == barrier->0;
                assert(receipts[k] == barrier->0);
            } else {
                assert(receipts[last] == barrier->0);
            }
        }
        if state.issue is None {
            assert forall|i: int| 0 <= i < receipts.len() implies barrier == Some(
                #[trigger] receipts[i],
            ) || is_registered(registered, receipts[i]) by {
                if i < last {
                    assert(receipts[i] == front[i]);
                }
            }
            assert forall|i: int| 0 <= i < receipts.len() implies state.seen.contains(
                (#[trigger] receipts[i]).version,
            ) by {
                if i < last {
                    assert(receipts[i] == front[i]);
                }
            }
            assert forall|i: int, j: int| 0 <= i < j < receipts.len() implies (
            #[trigger] receipts[i]).version != (#[trigger] receipts[j]).version by {
                assert(receipts[i] == front[i]);
                if j < last {
                    assert(receipts[j] == front[j]);
                }
            }
        }
    }
}

/// The barrier is found only beside the base receipt.
pub proof fn law_barrier_needs_base(
    manifest: SchemaManifest,
    role: DatabaseRole,
    found: SchemaCompatibility,
    own: Seq<ReceiptModel>,
    legacy: Seq<ReceiptModel>,
)
    ensures
        inspection(manifest, role, found, own, legacy).barrier_present ==> inspection(
            manifest,
            role,
            found,
            own,
            legacy,
        ).base_receipt_present && has_base(own, manifest.configuration_barrier),
{
    lemma_judged(
        legacy,
        ledger_migrations(manifest, SchemaLedger::Repository),
        barrier_receipt(
            manifest.configuration_barrier,
            has_base(own, manifest.configuration_barrier),
        ),
    );
}

/// A database without an issue holds no receipt that is not registered or the
/// barrier, and none twice.
pub proof fn law_no_issue_means_known_receipts(
    manifest: SchemaManifest,
    role: DatabaseRole,
    found: SchemaCompatibility,
    own: Seq<ReceiptModel>,
    legacy: Seq<ReceiptModel>,
)
    requires
        inspection(manifest, role, found, own, legacy).issue is None,
    ensures
        forall|i: int|
            0 <= i < own.len() ==> is_registered(
                ledger_migrations(manifest, SchemaLedger::Configuration),
                #[trigger] own[i],
            ),
        forall|i: int|
            0 <= i < legacy.len() ==> is_registered(
                ledger_migrations(manifest, SchemaLedger::Repository),
                #[trigger] legacy[i],
            ) || legacy[i].version == manifest.configuration_barrier.version,
        forall|i: int, j: int|
            0 <= i < j < own.len() ==> (#[trigger] own[i]).version != (#[trigger] own[j]).version,
        forall|i: int, j: int|
            0 <= i < j < legacy.len() ==> (#[trigger] legacy[i]).version != (
            #[trigger] legacy[j]).version,
{
    lemma_judged(own, ledger_migrations(manifest, SchemaLedger::Configuration), None);
    lemma_judged(
        legacy,
        ledger_migrations(manifest, SchemaLedger::Repository),
        barrier_receipt(
            manifest.configuration_barrier,
            has_base(own, manifest.configuration_barrier),
        ),
    );
}

proof fn lemma_known_receipts(receipts: Seq<ReceiptModel>, registered: Seq<MigrationModel>)
    requires
        forall|i: int|
            0 <= i < receipts.len() ==> is_registered(registered, #[trigger] receipts[i]),
        forall|i: int, j: int|
            0 <= i < j < receipts.len() ==> (#[trigger] receipts[i]).version != (
            #[trigger] receipts[j]).version,
    ensures
        forall|b: Option<ReceiptModel>| #[trigger] judged(receipts, registered, b).issue is None,
        forall|b: Option<ReceiptModel>, v: i64| #[trigger]
            judged(receipts, registered, b).seen.contains(v) ==> exists|k: int|
                0 <= k < receipts.len() && (#[trigger] receipts[k]).version == v,
    decreases receipts.len(),
{
    if receipts.len() > 0 {
        let front = receipts.drop_last();
        let last = receipts.len() - 1;
        assert forall|i: int| 0 <= i < front.len() implies is_registered(
            registered,
            #[trigger] front[i],
        ) by {
            assert(front[i] == receipts[i]);
        }
        assert forall|i: int, j: int| 0 <= i < j < front.len() implies (
        #[trigger] front[i]).version != (#[trigger] front[j]).version by {
            assert(front[i] == receipts[i]);
            assert(front[j] == receipts[j]);
        }
        lemma_known_receipts(front, registered);
        assert forall|b: Option<ReceiptModel>| #[trigger]
            judged(receipts, registered, b).issue is None by {
            let before = judged(front, registered, b);
            assert(before.issue is None);
            if before.seen.contains(receipts[last].version) {
                let k = choose|k: int|
                    0 <= k < front.len() && (#[trigger] front[k]).version
                        == receipts[last].version;
                assert(front[k] == receipts[k]);
            }
            assert(is_registered(registered, receipts[last]));
        }
        assert forall|b: Option<ReceiptModel>, v: i64| #[trigger]
            judged(receipts, registered, b).seen.contains(v) implies exists|k: int|
            0 <= k < receipts.len() && (#[trigger] receipts[k]).version == v by {
            let before = judged(front, registered, b);
            if before.seen.contains(v) {
                let k = choose|k: int| 0 <= k < front.len() && (#[trigger] front[k]).version == v;
                assert(receipts[k].version == v);
            } else {
                assert(receipts[last].version == v);
            }
        }
    }
}

/// Known receipts are no issue: neither the configuration's own nor those that
/// a repository's history left.
pub proof fn law_known_receipts_are_supported(
    manifest: SchemaManifest,
    role: DatabaseRole,
    found: SchemaCompatibility,
    own: Seq<ReceiptModel>,
    legacy: Seq<ReceiptModel>,
)
    requires
        !(found is UnsupportedFuture),
        forall|i: int|
            0 <= i < own.len() ==> is_registered(
                ledger_migrations(manifest, SchemaLedger::Configuration),
                #[trigger] own[i],
            ),
        forall|i: int|
            0 <= i < legacy.len() ==> is_registered(
                ledger_migrations(manifest, SchemaLedger::Repository),
                #[trigger] legacy[i],
            ),
        forall|i: int, j: int|
            0 <= i < j < own.len() ==> (#[trigger] own[i]).version != (#[trigger] own[j]).version,
        forall|i: int, j: int|
            0 <= i < j < legacy.len() ==> (#[trigger] legacy[i]).version != (
            #[trigger] legacy[j]).version,
    ensures
        inspection(manifest, role, found, own, legacy).issue is None,
{
    lemma_known_receipts(own, ledger_migrations(manifest, SchemaLedger::Configuration));
    lemma_known_receipts(legacy, ledger_migrations(manifest, SchemaLedger::Repository));
    let b = barrier_receipt(
        manifest.configuration_barrier,
        has_base(own, manifest.configuration_barrier),
    );
    assert(judged(own, ledger_migrations(manifest, SchemaLedger::Configuration), None).issue is None);
    assert(judged(legacy, ledger_migrations(manifest, SchemaLedger::Repository), b).issue is None);
}

/// A schema is compatible exactly where it is of the latest version, and of
/// the future exactly where it is beyond it or beyond none.
pub proof fn law_compatibility_is_decided_by_versions(current: Option<i64>, latest: Option<i64>)
    ensures
        compatibility(current, latest) is Compatible <==> current == latest,
        compatibility(current, latest) is UnsupportedFuture <==> current is Some && (latest is None
            || current->0 > latest->0),
        version_found(compatibility(current, latest)) == current,
{
}

proof fn lemma_pending_above(s: Seq<MigrationModel>, previous: Option<i64>)
    ensures
        forall|i: int|
            0 <= i < pending_versions(s, previous).len() ==> previous is None || #[trigger]
                pending_versions(s, previous)[i] > previous->0,
        forall|k: int|
            0 <= k < s.len() && is_pending(#[trigger] s[k], previous) ==> pending_versions(
                s,
                previous,
            ).contains(s[k].version),
    decreases s.len(),
{
    if s.len() > 0 {
        let front = s.drop_last();
        lemma_pending_above(front, previous);
        let before = pending_versions(front, previous);
        let all = pending_versions(s, previous);
        assert forall|k: int| 0 <= k < s.len() && is_pending(#[trigger] s[k], previous) implies
            all.contains(s[k].version) by {
            if k < front.len() {
                assert(s[k] == front[k]);
                assert(before.contains(s[k].version));
                let j = choose|j: int| 0 <= j < before.len() && before[j] == s[k].version;
                assert(all[j] == s[k].version);
            } else {
                assert(all.last() == s[k].version);
            }
        }
    }
}

/// An upgrade applies the migrations beyond the version that was there, all of
/// them and no others.
pub proof fn law_upgrade_applies_what_is_missing(s: Seq<MigrationModel>, previous: Option<i64>)
    ensures
        forall|i: int|
            0 <= i < pending_versions(s, previous).len() ==> previous is None || #[trigger]
                pending_versions(s, previous)[i] > previous->0,
        forall|k: int|
            0 <= k < s.len() && (previous is None || (#[trigger] s[k]).version > previous->0)
                ==> pending_versions(s, previous).contains(s[k].version),
{
    lemma_pending_above(s, previous);
    assert forall|k: int|
        0 <= k < s.len() && (previous is None || (#[trigger] s[k]).version > previous->0) implies
        pending_versions(s, previous).contains(s[k].version) by {
        assert(is_pending(s[k], previous));
    }
}

} // verus!
