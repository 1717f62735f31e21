use vstd::prelude::*;
use crate::config::StorageMode;
use crate::model::{
    MetaView, assoc_get, assoc_unique, has_timestamp, histories_nonempty, ledger_latest,
    lemma_apply_latest, lemma_assoc_get_at, lemma_assoc_get_push, lemma_assoc_get_some,
    spec_apply,
};
use crate::reconcile::{
    commit_new, remote_decision, spec_files_to_commit, spec_files_to_update,
    spec_files_to_update_remote, update_pull, RemoteDecision,
};
use crate::store::{sha256_hex_of, spec_encode};

verus! {

/// Content-addressing idempotence: equal contents get the same store name
/// (the digest of the uncompressed bytes) and the same blob bytes under any
/// one mode, so storing the same byte sequence twice overwrites the same
/// store path with identical bytes.
pub proof fn lemma_store_idempotent(c1: Seq<u8>, c2: Seq<u8>, mode: StorageMode)
    requires
        c1 == c2,
    ensures
        sha256_hex_of(c1) == sha256_hex_of(c2),
        spec_encode(c1, mode) == spec_encode(c2, mode),
{
}

/// A name carried by no ledger entry is never selected by update-from-local.
pub proof fn lemma_update_plan_names(
    files: Seq<(Seq<char>, Seq<MetaView>)>,
    wd: Seq<(Seq<char>, MetaView)>,
    name: Seq<char>,
)
    requires
        forall|i: int| 0 <= i < files.len() ==> files[i].0 != name,
    ensures
        assoc_get(spec_files_to_update(files, wd), name) is None,
    decreases files.len(),
{
    if files.len() > 0 {
        assert(forall|k: int|
            0 <= k < files.drop_last().len() ==> files.drop_last()[k] == files[k]);
        lemma_update_plan_names(files.drop_last(), wd, name);
        if update_pull(files.last().1, assoc_get(wd, files.last().0)) {
            lemma_assoc_get_push(
                spec_files_to_update(files.drop_last(), wd),
                (files.last().0, files.last().1.last()),
                name,
            );
            assert(files[files.len() - 1].0 == files.last().0);
        }
    }
}

/// Update no-op law: when the working directory's timestamp for a tracked
/// file equals the ledger's latest recorded timestamp for that file,
/// update-from-local selects no action for that file.
pub proof fn lemma_update_noop(
    files: Seq<(Seq<char>, Seq<MetaView>)>,
    wd: Seq<(Seq<char>, MetaView)>,
    name: Seq<char>,
)
    requires
        assoc_unique(files),
        assoc_get(files, name) is Some,
        assoc_get(files, name).unwrap().len() > 0,
        assoc_get(wd, name) is Some,
        assoc_get(wd, name).unwrap().timestamp == assoc_get(files, name).unwrap().last().timestamp,
    ensures
        assoc_get(spec_files_to_update(files, wd), name) is None,
    decreases files.len(),
{
    if files.len() > 0 {
        assert(forall|k: int|
            0 <= k < files.drop_last().len() ==> files.drop_last()[k] == files[k]);
        if files.last().0 == name {
            assert(!update_pull(files.last().1, assoc_get(wd, name)));
            assert(forall|i: int| 0 <= i < files.len() - 1 ==> files[i].0 != name);
            lemma_update_plan_names(files.drop_last(), wd, name);
        } else {
            lemma_update_noop(files.drop_last(), wd, name);
            if update_pull(files.last().1, assoc_get(wd, files.last().0)) {
                lemma_assoc_get_push(
                    spec_files_to_update(files.drop_last(), wd),
                    (files.last().0, files.last().1.last()),
                    name,
                );
            }
        }
    }
}

/// Conflict law, first shape: the remote ledger tracks a file, the working
/// copy carries a timestamp the remote history does not record, and the
/// local ledger does not track the file at all — a new local file collides
/// with an existing remote file.
pub proof fn lemma_remote_conflict_new_local(revs: Seq<MetaView>, w: MetaView)
    requires
        revs.len() > 0,
        !has_timestamp(revs, w.timestamp),
    ensures
        remote_decision(revs, Some(w), None) == RemoteDecision::Conflict(
            crate::reconcile::ConflictReason::NewLocalFile,
        ),
{
    assert(w.timestamp != revs.last().timestamp) by {
        assert(revs[revs.len() - 1] == revs.last());
    }
}

/// Conflict law, second shape: the working copy carries a timestamp the
/// remote history does not record, and the local ledger's latest timestamp
/// disagrees with the remote's latest — remote and working copy both
/// changed.
pub proof fn lemma_remote_conflict_both_changed(revs: Seq<MetaView>, w: MetaView, l: MetaView)
    requires
        revs.len() > 0,
        !has_timestamp(revs, w.timestamp),
        l.timestamp != revs.last().timestamp,
    ensures
        remote_decision(revs, Some(w), Some(l)) == RemoteDecision::Conflict(
            crate::reconcile::ConflictReason::RemoteAndWorkingChanged,
        ),
{
    assert(w.timestamp != revs.last().timestamp) by {
        assert(revs[revs.len() - 1] == revs.last());
    }
}

/// A conflict anywhere aborts the whole remote update: no file at all is
/// selected once any remote-tracked file's decision is a conflict.
pub proof fn lemma_remote_conflict_aborts(
    remote: Seq<(Seq<char>, Seq<MetaView>)>,
    wd: Seq<(Seq<char>, MetaView)>,
    local: Seq<(Seq<char>, Seq<MetaView>)>,
    k: int,
)
    requires
        0 <= k < remote.len(),
        remote_decision(
            remote[k].1,
            assoc_get(wd, remote[k].0),
            ledger_latest(local, remote[k].0),
        ) is Conflict,
    ensures
        spec_files_to_update_remote(remote, wd, local) is Err,
{
    assert(remote.take(k + 1).drop_last() =~= remote.take(k));
    assert(remote.take(k + 1).last() == remote[k]);
    assert(spec_files_to_update_remote(remote.take(k + 1), wd, local) is Err);
    crate::reconcile::lemma_remote_plan_err_persists(remote, wd, local, k + 1);
}

/// Whether some entry carries this name.
pub open spec fn has_name(s: Seq<(Seq<char>, MetaView)>, name: Seq<char>) -> bool {
    exists|j: int| 0 <= j < s.len() && s[j].0 == name
}

/// A name observed by no snapshot entry is never selected by commit.
pub proof fn lemma_commit_plan_names(
    wd: Seq<(Seq<char>, MetaView)>,
    local: Seq<(Seq<char>, Seq<MetaView>)>,
    name: Seq<char>,
)
    requires
        forall|i: int| 0 <= i < wd.len() ==> wd[i].0 != name,
    ensures
        assoc_get(spec_files_to_commit(wd, local), name) is None,
    decreases wd.len(),
{
    if wd.len() > 0 {
        assert(forall|k: int| 0 <= k < wd.drop_last().len() ==> wd.drop_last()[k] == wd[k]);
        lemma_commit_plan_names(wd.drop_last(), local, name);
        if commit_new(ledger_latest(local, wd.last().0), wd.last().1) {
            lemma_assoc_get_push(spec_files_to_commit(wd.drop_last(), local), wd.last(), name);
            assert(wd[wd.len() - 1].0 == wd.last().0);
        }
    }
}

/// The commit plan's names are observed names, and are unique when the
/// snapshot's names are.
pub proof fn lemma_commit_plan_unique(
    wd: Seq<(Seq<char>, MetaView)>,
    local: Seq<(Seq<char>, Seq<MetaView>)>,
)
    requires
        assoc_unique(wd),
    ensures
        assoc_unique(spec_files_to_commit(wd, local)),
        forall|i: int|
            0 <= i < spec_files_to_commit(wd, local).len() ==> has_name(
                wd,
                (#[trigger] spec_files_to_commit(wd, local)[i]).0,
            ),
    decreases wd.len(),
{
    if wd.len() > 0 {
        let plan = spec_files_to_commit(wd, local);
        let rest = spec_files_to_commit(wd.drop_last(), local);
        assert(forall|k: int| 0 <= k < wd.drop_last().len() ==> wd.drop_last()[k] == wd[k]);
        lemma_commit_plan_unique(wd.drop_last(), local);
        assert(forall|i: int| 0 <= i < rest.len() ==> has_name(wd, (#[trigger] rest[i]).0)) by {
            assert(forall|i: int|
                0 <= i < rest.len() ==> has_name(wd.drop_last(), (#[trigger] rest[i]).0));
            assert(forall|j: int|
                0 <= j < wd.drop_last().len() ==> wd.drop_last()[j].0 == wd[j].0);
        }
        if commit_new(ledger_latest(local, wd.last().0), wd.last().1) {
            assert(plan == rest.push(wd.last()));
            assert(forall|i: int| 0 <= i < rest.len() ==> rest[i].0 != wd.last().0) by {
                if exists|i: int| 0 <= i < rest.len() && rest[i].0 == wd.last().0 {
                    let i = choose|i: int| 0 <= i < rest.len() && rest[i].0 == wd.last().0;
                    assert(has_name(wd.drop_last(), rest[i].0));
                    let j = choose|j: int|
                        0 <= j < wd.drop_last().len() && wd.drop_last()[j].0 == rest[i].0;
                    assert(wd[j].0 == wd.last().0);
                    assert(wd[wd.len() - 1].0 == wd.last().0);
                }
            }
        }
    }
}

/// With unique snapshot names: a selected file sits in the commit plan with
/// exactly its observed revision; an unselected file is absent from it.
pub proof fn lemma_commit_plan_get(
    wd: Seq<(Seq<char>, MetaView)>,
    local: Seq<(Seq<char>, Seq<MetaView>)>,
    k: int,
)
    requires
        assoc_unique(wd),
        0 <= k < wd.len(),
    ensures
        commit_new(ledger_latest(local, wd[k].0), wd[k].1) ==> assoc_get(
            spec_files_to_commit(wd, local),
            wd[k].0,
        ) == Some(wd[k].1),
        !commit_new(ledger_latest(local, wd[k].0), wd[k].1) ==> assoc_get(
            spec_files_to_commit(wd, local),
            wd[k].0,
        ) is None,
    decreases wd.len(),
{
    let plan = spec_files_to_commit(wd, local);
    let rest = spec_files_to_commit(wd.drop_last(), local);
    assert(forall|j: int| 0 <= j < wd.drop_last().len() ==> wd.drop_last()[j] == wd[j]);
    if k == wd.len() - 1 {
        assert(wd[k] == wd.last());
        assert(forall|i: int| 0 <= i < wd.len() - 1 ==> wd[i].0 != wd.last().0);
        lemma_commit_plan_names(wd.drop_last(), local, wd.last().0);
        if commit_new(ledger_latest(local, wd[k].0), wd[k].1) {
            assert(plan == rest.push(wd.last()));
            lemma_assoc_get_push(rest, wd.last(), wd[k].0);
        } else {
            assert(plan == rest);
        }
    } else {
        lemma_commit_plan_get(wd.drop_last(), local, k);
        assert(wd.last().0 != wd[k].0);
        if commit_new(ledger_latest(local, wd.last().0), wd.last().1) {
            assert(plan == rest.push(wd.last()));
            lemma_assoc_get_push(rest, wd.last(), wd[k].0);
        }
    }
}

/// When no observed file is new to the ledger's eye, commit selects
/// nothing.
pub proof fn lemma_commit_plan_all_old(
    wd: Seq<(Seq<char>, MetaView)>,
    local: Seq<(Seq<char>, Seq<MetaView>)>,
)
    requires
        forall|k: int|
            0 <= k < wd.len() ==> !commit_new(
                ledger_latest(local, (#[trigger] wd[k]).0),
                wd[k].1,
            ),
    ensures
        spec_files_to_commit(wd, local) == Seq::<(Seq<char>, MetaView)>::empty(),
    decreases wd.len(),
{
    if wd.len() > 0 {
        assert(forall|k: int| 0 <= k < wd.drop_last().len() ==> wd.drop_last()[k] == wd[k]);
        lemma_commit_plan_all_old(wd.drop_last(), local);
        assert(wd[wd.len() - 1] == wd.last());
    }
}

/// Lookup finds a value under a name in one sequence exactly when it does
/// in another whose entries carry the same names in the same places.
pub proof fn lemma_assoc_get_names(
    s1: Seq<(Seq<char>, MetaView)>,
    s2: Seq<(Seq<char>, MetaView)>,
    name: Seq<char>,
)
    requires
        s1.len() == s2.len(),
        forall|i: int| 0 <= i < s1.len() ==> s1[i].0 == s2[i].0,
    ensures
        assoc_get(s1, name) is Some <==> assoc_get(s2, name) is Some,
    decreases s1.len(),
{
    if s1.len() > 0 {
        assert(forall|k: int| 0 <= k < s1.drop_last().len() ==> s1.drop_last()[k] == s1[k]);
        assert(forall|k: int| 0 <= k < s2.drop_last().len() ==> s2.drop_last()[k] == s2[k]);
        lemma_assoc_get_names(s1.drop_last(), s2.drop_last(), name);
    }
}

/// Commit monotonicity: commit once, apply the selected revisions to the
/// ledger with whatever digests the store attached (names and timestamps
/// unchanged), and run commit again from an unchanged working directory:
/// the second commit selects nothing, because no observed timestamp is
/// strictly newer than the ledger's new latest one.
pub proof fn lemma_commit_twice(
    files: Seq<(Seq<char>, Seq<MetaView>)>,
    wd: Seq<(Seq<char>, MetaView)>,
    ups: Seq<(Seq<char>, MetaView)>,
)
    requires
        assoc_unique(files),
        histories_nonempty(files),
        assoc_unique(wd),
        ups.len() == spec_files_to_commit(wd, files).len(),
        forall|i: int|
            0 <= i < ups.len() ==> (#[trigger] ups[i]).0 == spec_files_to_commit(
                wd,
                files,
            )[i].0,
        forall|i: int|
            0 <= i < ups.len() ==> (#[trigger] ups[i]).1.timestamp == spec_files_to_commit(
                wd,
                files,
            )[i].1.timestamp,
    ensures
        spec_files_to_commit(wd, spec_apply(files, ups)) == Seq::<(Seq<char>, MetaView)>::empty(),
{
    let plan = spec_files_to_commit(wd, files);
    let files2 = spec_apply(files, ups);
    lemma_commit_plan_unique(wd, files);
    assert(assoc_unique(ups));
    assert forall|k: int| 0 <= k < wd.len() implies !commit_new(
        ledger_latest(files2, (#[trigger] wd[k]).0),
        wd[k].1,
    ) by {
        let n = wd[k].0;
        let w = wd[k].1;
        lemma_commit_plan_get(wd, files, k);
        lemma_apply_latest(files, ups, n);
        if commit_new(ledger_latest(files, n), w) {
            lemma_assoc_get_some(plan, n);
            let i = choose|i: int|
                0 <= i < plan.len() && plan[i].0 == n && plan[i].1 == assoc_get(plan, n).unwrap();
            lemma_assoc_get_at(ups, i);
            assert(assoc_get(ups, n) == Some(ups[i].1));
            assert(ups[i].1.timestamp == w.timestamp);
        } else {
            lemma_assoc_get_names(plan, ups, n);
            assert(assoc_get(ups, n) is None);
        }
    }
    lemma_commit_plan_all_old(wd, files2);
}

} // verus!
