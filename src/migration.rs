use vstd::prelude::*;

verus! {

/// Direction of a migration; only forward migrations are supported.
#[derive(Clone, Copy, Debug, PartialEq, Eq, Structural)]
pub enum MigrationKind {
    Up,
}

/// One versioned schema change: a script applied at most once to a store.
#[derive(Clone, Copy, Debug)]
pub struct Migration {
    pub version: i64,
    pub description: &'static str,
    pub sql: &'static str,
    pub kind: MigrationKind,
}

/// Errors that stop a migration run.
#[derive(Debug)]
pub enum MigrateError {
    /// The store could not be opened or created.
    StoreUnavailable,
    /// The migration list holds a non-positive, repeated or out-of-order version.
    InvalidMigrationSet,
    /// The script of `version` failed; `cause` is the store's own message.
    MigrationFailed { version: i64, cause: String },
}

/// The versions of a migration list, in list order.
pub open spec fn versions(ms: Seq<Migration>) -> Seq<i64> {
    ms.map_values(|m: Migration| m.version)
}

/// Every version is positive and the versions strictly increase along the list
/// (so no version appears twice).
pub open spec fn valid_versions(vs: Seq<i64>) -> bool {
    &&& forall|i: int| 0 <= i < vs.len() ==> vs[i] > 0
    &&& forall|i: int, j: int| 0 <= i < j < vs.len() ==> vs[i] < vs[j]
}

/// Checks a migration list before any store is touched.
pub fn validate_migrations(ms: &Vec<Migration>) -> (r: Result<(), MigrateError>)
    ensures
        r is Ok <==> valid_versions(versions(ms@)),
        r matches Err(e) ==> e is InvalidMigrationSet,
{
    let ghost vs = versions(ms@);
    let mut i: usize = 0;
    while i < ms.len()
        invariant
            0 <= i <= ms.len(),
            vs == versions(ms@),
            forall|k: int| 0 <= k < i ==> vs[k] > 0,
            forall|k: int, l: int| 0 <= k < l < i ==> vs[k] < vs[l],
        decreases ms.len() - i,
    {
        let v = ms[i].version;
        if v <= 0 {
            assert(!(vs[i as int] > 0));
            return Err(MigrateError::InvalidMigrationSet);
        }
        if i > 0 && ms[i - 1].version >= v {
            assert(!(vs[i - 1] < vs[i as int]));
            return Err(MigrateError::InvalidMigrationSet);
        }
        assert forall|k: int, l: int| 0 <= k < l < i + 1 implies vs[k] < vs[l] by {
            if l == i && k < i - 1 {
                assert(vs[k] < vs[i - 1]);
            }
        }
        i = i + 1;
    }
    Ok(())
}

} // verus!
