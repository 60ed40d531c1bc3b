//! What the store may be asked to become: its schema, and who is shown.

use vstd::prelude::*;

#[allow(unused_imports)]
use crate::text::{decimal, integer, push_decimal, push_integer};

verus! {

/// How many migrations there are.
pub const MIGRATIONS: usize = 4;

/// What is said of a store that is newer than the program.
pub open spec fn too_new_text(applied: int) -> Seq<char> {
    "store is at schema version "@ + integer(applied) + ", this binary knows "@ + decimal(
        MIGRATIONS as nat,
    )
}

/// Whether a store can be at a version.
pub open spec fn known_version(version: int) -> bool {
    0 <= version <= MIGRATIONS
}

/// The versions that a store still has to be brought to, in order: every one after the version
/// that it is at.
pub open spec fn pending_versions(applied: int) -> Seq<int> {
    Seq::new((MIGRATIONS - applied) as nat, |k: int| applied + 1 + k)
}

/// A list of versions as integers.
pub open spec fn version_ints(v: Seq<usize>) -> Seq<int> {
    v.map_values(|version: usize| version as int)
}

/// The versions that a store still has to be brought to. A store at a version that is not known
/// is refused, with the reason.
pub fn pending(applied: i64) -> (r: Result<Vec<usize>, String>)
    ensures
        match r {
            Ok(versions) => known_version(applied as int) && version_ints(versions@)
                == pending_versions(applied as int),
            Err(why) => !known_version(applied as int) && why@ == too_new_text(applied as int),
        },
{
    if applied < 0 || applied > MIGRATIONS as i64 {
        let mut why = "store is at schema version ".to_owned();
        push_integer(&mut why, applied as i128);
        why.append(", this binary knows ");
        push_decimal(&mut why, MIGRATIONS as u128);
        return Err(why);
    }
    let mut out: Vec<usize> = Vec::new();
    let mut version: usize = applied as usize;
    while version < MIGRATIONS
        invariant
            0 <= applied <= version <= MIGRATIONS,
            out@.len() == version - applied,
            forall|k: int| 0 <= k < out@.len() ==> #[trigger] out@[k] == applied + 1 + k,
        decreases MIGRATIONS - version,
    {
        version += 1;
        out.push(version);
    }
    assert(version_ints(out@) =~= pending_versions(applied as int));
    Ok(out)
}

/// What is said of a migration that took the rows away that others refer to.
pub open spec fn dangling_text(version: int) -> Seq<char> {
    "migration "@ + integer(version) + " left dangling references"@
}

/// The version that a store is at once a migration has run on it: that of the migration, unless
/// it left a reference that leads nowhere. Then nothing of it is kept, and the reason is given.
pub fn migrated(version: usize, dangling: bool) -> (r: Result<i64, String>)
    requires
        known_version(version as int),
    ensures
        match r {
            Ok(at) => !dangling && at == version,
            Err(why) => dangling && why@ == dangling_text(version as int),
        },
{
    if dangling {
        let mut why = "migration ".to_owned();
        push_integer(&mut why, version as i128);
        why.append(" left dangling references");
        Err(why)
    } else {
        Ok(version as i64)
    }
}

/// The version that a store is at once migrations ran on it in order, where each of them may
/// leave references that lead nowhere: the run ends at the first that does.
pub open spec fn version_reached(at: int, versions: Seq<int>, dangling: Seq<bool>) -> int
    decreases versions.len(),
{
    if versions.len() == 0 || dangling[0] {
        at
    } else {
        version_reached(versions[0], versions.skip(1), dangling.skip(1))
    }
}

/// A store is brought to the newest version, and one that is there stays as it is. A migration
/// that would leave a reference that leads nowhere leaves the store at the version before it.
pub proof fn law_a_store_is_brought_to_the_newest_version(
    applied: int,
    dangling: Seq<bool>,
    k: int,
)
    requires
        known_version(applied),
        dangling.len() == pending_versions(applied).len(),
        0 <= k <= dangling.len(),
        forall|i: int| 0 <= i < k ==> !dangling[i],
        k < dangling.len() ==> dangling[k],
    ensures
        version_reached(applied, pending_versions(applied), dangling) == applied + k,
        k == dangling.len() ==> applied + k == MIGRATIONS,
    decreases k,
{
    if k > 0 {
        let rest = dangling.skip(1);
        law_migrations_go_on_where_they_stopped(applied, 1);
        assert forall|i: int| 0 <= i < k - 1 implies !rest[i] by {
            assert(rest[i] == dangling[i + 1]);
        }
        law_a_store_is_brought_to_the_newest_version(applied + 1, rest, k - 1);
    }
}

/// A store that was brought some of the way goes on where it stopped: no version is left out
/// and none is applied twice. One at the newest version has nothing left to do.
pub proof fn law_migrations_go_on_where_they_stopped(applied: int, done: int)
    requires
        known_version(applied),
        0 <= done <= pending_versions(applied).len(),
    ensures
        known_version(applied + done),
        done > 0 ==> pending_versions(applied)[done - 1] == applied + done,
        pending_versions(applied + done) == pending_versions(applied).skip(done),
        pending_versions(MIGRATIONS as int).len() == 0,
        done == pending_versions(applied).len() ==> applied + done == MIGRATIONS,
{
    assert(pending_versions(applied + done) =~= pending_versions(applied).skip(done));
}

/// What a store still has to be brought to is every version that is newer than its own, up to the
/// fourth, and no other. A store at a version past the fourth is not known.
pub proof fn law_every_newer_version_is_pending(applied: int, version: int)
    requires
        known_version(applied),
    ensures
        pending_versions(applied).contains(version) <==> applied < version <= 4,
        pending_versions(applied).len() == 4 - applied,
        known_version(version) <==> 0 <= version <= 4,
{
    if applied < version <= 4 {
        assert(pending_versions(applied)[version - applied - 1] == version);
    }
}

/// The status that the operator gives a repo.
pub open spec fn status_after(undo: bool) -> Seq<char> {
    if undo {
        "active"@
    } else {
        "opted_out"@
    }
}

/// The status that the operator gives a repo: opted out, or active again. Undo does not
/// re-decide whether the repo is still observable: the next sweep does that.
pub fn status_for(undo: bool) -> (r: &'static str)
    ensures
        r@ == status_after(undo),
{
    if undo {
        "active"
    } else {
        "opted_out"
    }
}

/// What the operator is told about a repo whose status changed.
pub fn opt_out_report(name: &str, id: i64, undo: bool) -> (r: String)
    ensures
        r@ == name@ + " ("@ + integer(id as int) + ") "@ + if undo {
            "is tracked again; its badge and its rankings row are back"@
        } else {
            "opted out; its badge reads not tracked and it leaves the rankings"@
        },
{
    let mut out = name.to_owned();
    out.append(" (");
    push_integer(&mut out, id as i128);
    out.append(") ");
    out.append(
        if undo {
            "is tracked again; its badge and its rankings row are back"
        } else {
            "opted out; its badge reads not tracked and it leaves the rankings"
        },
    );
    out
}

/// What the operator is told about a name that has no row: an error, not a quiet success.
pub fn not_tracked_error(full_name: &str) -> (r: String)
    ensures
        r@ == full_name@ + " is not tracked, so there is nothing to opt out"@,
{
    let mut out = full_name.to_owned();
    out.append(" is not tracked, so there is nothing to opt out");
    out
}

/// Opting out and undoing it are told apart by the status that the server reads: one hides the
/// repo, the other shows it.
pub proof fn law_the_operator_hides_and_shows()
    ensures
        crate::serve::status_named(status_after(false)) == crate::serve::Status::OptedOut,
        crate::serve::status_named(status_after(true)) == crate::serve::Status::Active,
{
    reveal_strlit("active");
    reveal_strlit("inactive");
    reveal_strlit("opted_out");
    assert("active"@.len() == 6 && "inactive"@.len() == 8 && "opted_out"@.len() == 9);
}

} // verus!
