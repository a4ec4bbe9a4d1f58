//! What a manifest says of a database, and what an upgrade does to it.

use vstd::prelude::*;

use super::schema;
use super::schema::{DatabaseRole, MigrationModel, ScopedMigration, StepModel};

verus! {

/// The latest version of migrations is one of theirs, and none is beyond it.
pub proof fn law_latest_version_is_highest(s: Seq<MigrationModel>)
    ensures
        schema::newest(s) is None <==> s.len() == 0,
        schema::newest(s) matches Some(v) ==> {
            &&& exists|i: int| 0 <= i < s.len() && (#[trigger] s[i]).version == v
            &&& forall|i: int| 0 <= i < s.len() ==> (#[trigger] s[i]).version <= v
        },
    decreases s.len(),
{
    if s.len() > 0 {
        let front = s.drop_last();
        law_latest_version_is_highest(front);
        let last = s.len() - 1;
        assert(s[last] == s.last());
        if let Some(v) = schema::newest(front) {
            let i = choose|i: int| 0 <= i < front.len() && (#[trigger] front[i]).version == v;
            assert(s[i] == front[i]);
        }
        assert forall|i: int| 0 <= i < s.len() implies (#[trigger] s[i]).version
            <= schema::newest(s)->0 by {
            if i < last {
                assert(s[i] == front[i]);
            }
        }
    }
}

/// The migrations of a role are those that are meant for it, in their order.
pub proof fn law_role_has_its_migrations(s: Seq<ScopedMigration>, role: DatabaseRole)
    ensures
        schema::migrations_of(s, role) == s.filter(
            |m: ScopedMigration| m.roles.has(role),
        ).map_values(|m: ScopedMigration| m.migration@),
    decreases s.len(),
{
    reveal(Seq::filter);
    let p = |m: ScopedMigration| m.roles.has(role);
    let f = |m: ScopedMigration| m.migration@;
    if s.len() > 0 {
        law_role_has_its_migrations(s.drop_last(), role);
        let front = s.drop_last().filter(p);
        assert(front.push(s.last()).map_values(f) =~= front.map_values(f).push(
            s.last().migration@,
        ));
        assert(schema::migrations_of(s, role) =~= s.filter(p).map_values(f));
    } else {
        assert(s.filter(p).map_values(f) =~= Seq::<MigrationModel>::empty());
    }
}

/// The migrations beyond a version, or all of them where there is none.
pub open spec fn beyond(s: Seq<MigrationModel>, previous: Option<i64>) -> Seq<MigrationModel> {
    s.filter(|m: MigrationModel| previous is None || m.version > previous->0)
}

/// An upgrade goes through the migrations beyond the version that was there, in
/// their order: each leaves its receipt and is then carried out, and the report
/// lists their versions.
pub proof fn law_migrations_leave_receipts(s: Seq<MigrationModel>, previous: Option<i64>)
    ensures
        schema::migration_steps(s, previous).len() == 2 * beyond(s, previous).len(),
        forall|j: int|
            0 <= j < beyond(s, previous).len() ==> {
                let m = #[trigger] beyond(s, previous)[j];
                &&& schema::migration_steps(s, previous)[2 * j] == StepModel::Record {
                    version: m.version,
                    name: m.name,
                }
                &&& schema::migration_steps(s, previous)[2 * j + 1] == StepModel::Execute(m.up)
            },
        schema::pending_versions(s, previous) == beyond(s, previous).map_values(
            |m: MigrationModel| m.version,
        ),
    decreases s.len(),
{
    reveal(Seq::filter);
    let f = |m: MigrationModel| m.version;
    if s.len() > 0 {
        let front = s.drop_last();
        law_migrations_leave_receipts(front, previous);
        let before = beyond(front, previous);
        let all = beyond(s, previous);
        if previous is None || s.last().version > previous->0 {
            assert(all == before.push(s.last()));
            assert(all.map_values(f) =~= before.map_values(f).push(s.last().version));
            assert forall|j: int| 0 <= j < all.len() implies {
                let m = #[trigger] all[j];
                &&& schema::migration_steps(s, previous)[2 * j] == StepModel::Record {
                    version: m.version,
                    name: m.name,
                }
                &&& schema::migration_steps(s, previous)[2 * j + 1] == StepModel::Execute(m.up)
            } by {
                if j < before.len() {
                    assert(all[j] == before[j]);
                    assert(2 * j + 1 < schema::migration_steps(front, previous).len());
                }
            }
        } else {
            assert(all == before);
        }
        assert(schema::pending_versions(s, previous) =~= all.map_values(f));
    } else {
        assert(beyond(s, previous) =~= Seq::<MigrationModel>::empty());
        assert(schema::pending_versions(s, previous) =~= beyond(s, previous).map_values(f));
    }
}

} // verus!
