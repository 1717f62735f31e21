use vstd::prelude::*;
use vstd::pervasive::unreached;
use crate::model::{
    MetaData, MetaView, Hierarchy, assoc_get, assoc_unique, entries_view,
    has_timestamp, ledger_latest, lemma_assoc_get_at, lemma_assoc_get_none,
};

verus! {

/// What a directory walk observed: per relative path, the file's current
/// modification time and size (no hash yet).
#[derive(Debug)]
pub struct Snapshot {
    pub entries: Vec<(String, MetaData)>,
}

impl View for Snapshot {
    type V = Seq<(Seq<char>, MetaView)>;

    open spec fn view(&self) -> Seq<(Seq<char>, MetaView)> {
        entries_view(self.entries@)
    }
}

impl Snapshot {
    /// Observed paths are unique.
    pub open spec fn wf(&self) -> bool {
        assoc_unique(self@)
    }

    pub fn new() -> (s: Snapshot)
        ensures
            s@ == Seq::<(Seq<char>, MetaView)>::empty(),
            s.wf(),
    {
        let s = Snapshot { entries: Vec::new() };
        proof {
            assert(s@ =~= Seq::<(Seq<char>, MetaView)>::empty());
        }
        s
    }

    pub fn len(&self) -> (r: usize)
        ensures
            r == self@.len(),
    {
        self.entries.len()
    }

    /// Where `name` sits among the observed files, if anywhere.
    fn position_of(&self, name: &String) -> (r: Option<usize>)
        ensures
            match r {
                Some(i) => i < self@.len() && self@[i as int].0 == name@,
                None => forall|j: int| 0 <= j < self@.len() ==> self@[j].0 != name@,
            },
    {
        let mut i: usize = 0;
        while i < self.entries.len()
            invariant
                i <= self.entries.len(),
                forall|j: int| 0 <= j < i ==> self@[j].0 != name@,
            decreases self.entries.len() - i,
        {
            if self.entries[i].0 == *name {
                assert(self@[i as int].0 == name@);
                return Some(i);
            }
            assert(self@[i as int].0 != name@);
            i += 1;
        }
        None
    }

    pub fn contains(&self, name: &String) -> (r: bool)
        requires
            self.wf(),
        ensures
            r == (assoc_get(self@, name@) is Some),
    {
        match self.position_of(name) {
            Some(i) => {
                proof {
                    lemma_assoc_get_at(self@, i as int);
                }
                true
            },
            None => {
                proof {
                    lemma_assoc_get_none(self@, name@);
                }
                false
            },
        }
    }

    /// The observed revision of `name`, or absence.
    pub fn get(&self, name: &String) -> (r: Option<&MetaData>)
        requires
            self.wf(),
        ensures
            match r {
                Some(m) => assoc_get(self@, name@) == Some(m@),
                None => assoc_get(self@, name@) is None,
            },
    {
        match self.position_of(name) {
            Some(i) => {
                proof {
                    lemma_assoc_get_at(self@, i as int);
                }
                Some(&self.entries[i].1)
            },
            None => {
                proof {
                    lemma_assoc_get_none(self@, name@);
                }
                None
            },
        }
    }

    /// Record an observed file; the walk never reports a path twice.
    pub fn insert(&mut self, name: String, m: MetaData)
        requires
            old(self).wf(),
            assoc_get(old(self)@, name@) is None,
        ensures
            final(self)@ == old(self)@.push((name@, m@)),
            final(self).wf(),
    {
        self.entries.push((name, m));
        proof {
            assert(self@ =~= old(self)@.push((name@, m@)));
            assert(forall|j: int|
                0 <= j < old(self)@.len() ==> old(self)@[j].0 != name@) by {
                if exists|j: int| 0 <= j < old(self)@.len() && old(self)@[j].0 == name@ {
                    let j = choose|j: int|
                        0 <= j < old(self)@.len() && old(self)@[j].0 == name@;
                    lemma_assoc_get_at(old(self)@, j);
                }
            }
        }
    }
}

/// Does update-from-local pull this tracked file?  Pull when the file is
/// missing from the working directory, or when the working copy's timestamp
/// is a recorded one that is not the latest (the working copy is stale).
/// Equal timestamps, and timestamps the history does not record, select no
/// action.
pub open spec fn update_pull(revs: Seq<MetaView>, wd: Option<MetaView>) -> bool {
    match wd {
        None => true,
        Some(w) => w.timestamp != revs.last().timestamp && has_timestamp(revs, w.timestamp),
    }
}

/// The files update-from-local extracts from the store: per tracked file,
/// in ledger order, the latest revision of each file that `update_pull`
/// selects.
pub open spec fn spec_files_to_update(
    files: Seq<(Seq<char>, Seq<MetaView>)>,
    wd: Seq<(Seq<char>, MetaView)>,
) -> Seq<(Seq<char>, MetaView)>
    decreases files.len(),
{
    if files.len() == 0 {
        Seq::empty()
    } else {
        let rest = spec_files_to_update(files.drop_last(), wd);
        if update_pull(files.last().1, assoc_get(wd, files.last().0)) {
            rest.push((files.last().0, files.last().1.last()))
        } else {
            rest
        }
    }
}

/// Decide, for every file the local ledger tracks, whether the working
/// directory must be refreshed from the store.  Returns, per selected file,
/// the latest recorded revision to extract.
pub fn files_to_update(wd_hierarchy: &Snapshot, mt_hierarchy: &Hierarchy) -> (r: Vec<
    (String, MetaData),
>)
    requires
        wd_hierarchy.wf(),
        mt_hierarchy.wf(),
    ensures
        entries_view(r@) == spec_files_to_update(mt_hierarchy@, wd_hierarchy@),
{
    let mut out: Vec<(String, MetaData)> = Vec::new();
    let files = mt_hierarchy.get_files();
    let mut i: usize = 0;
    proof {
        assert(entries_view(out@) =~= Seq::<(Seq<char>, MetaView)>::empty());
    }
    while i < files.len()
        invariant
            i <= files.len(),
            files@ == mt_hierarchy.files@,
            mt_hierarchy.wf(),
            wd_hierarchy.wf(),
            entries_view(out@) == spec_files_to_update(
                mt_hierarchy@.take(i as int),
                wd_hierarchy@,
            ),
        decreases files.len() - i,
    {
        proof {
            assert(mt_hierarchy@.take(i as int + 1).drop_last() =~= mt_hierarchy@.take(i as int));
            assert(mt_hierarchy@.take(i as int + 1).last() == mt_hierarchy@[i as int]);
        }
        let filename = &files[i].0;
        let metadataset = &files[i].1;
        let ghost revs = mt_hierarchy@[i as int].1;
        assert(metadataset@ == revs);
        assert(revs.len() > 0);
        let last = match metadataset.get_last() {
            Some(m) => m,
            None => unreached(),
        };
        match wd_hierarchy.get(filename) {
            Some(x) => {
                let wd_timestamp = x.get_timestamp();
                let last_md_timestamp = last.get_timestamp();
                if wd_timestamp == last_md_timestamp {
                    // timestamps equal: nothing to do
                } else if metadataset.has_metadata_with_timestamp(wd_timestamp) {
                    // the working copy is a stale recorded revision: pull
                    out.push((filename.clone(), last.clone()));
                } else {
                    // unrecorded timestamp: the working copy is either ahead
                    // (a commit candidate) or anomalously old; no action
                }
            },
            None => {
                // missing from the working directory: pull
                out.push((filename.clone(), last.clone()));
            },
        }
        proof {
            assert(entries_view(out@) =~= spec_files_to_update(
                mt_hierarchy@.take(i as int + 1),
                wd_hierarchy@,
            ));
        }
        i += 1;
    }
    proof {
        assert(mt_hierarchy@.take(files@.len() as int) =~= mt_hierarchy@);
    }
    out
}

/// Why update-from-remote had to stop.
#[derive(Clone, Copy, Debug, PartialEq, Eq, Structural)]
pub enum ConflictReason {
    /// The remote file and the working copy both changed since they last
    /// agreed.
    RemoteAndWorkingChanged,
    /// A new file in the working directory collides with a file the remote
    /// ledger already tracks.
    NewLocalFile,
}

/// The file that stopped update-from-remote, and why.  No file is replaced
/// once a conflict is found: a partial pull could silently discard a local
/// change.
#[derive(Debug)]
pub struct Conflict {
    pub filename: String,
    pub reason: ConflictReason,
}

/// The decision update-from-remote takes for one remote-tracked file.
pub enum RemoteDecision {
    /// Nothing to do for this file.
    Keep,
    /// Extract the remote's latest revision over the working copy.
    Pull,
    /// Stop the whole update.
    Conflict(ConflictReason),
}

/// The first three branches are those of update-from-local; a timestamp the
/// remote history does not record is then adjudicated by the local ledger:
/// if the local latest timestamp equals the remote latest timestamp the two
/// sides already agree, otherwise the update is impossible.
pub open spec fn remote_decision(
    revs: Seq<MetaView>,
    wd: Option<MetaView>,
    local_latest: Option<MetaView>,
) -> RemoteDecision {
    match wd {
        None => RemoteDecision::Pull,
        Some(w) => if w.timestamp == revs.last().timestamp {
            RemoteDecision::Keep
        } else if has_timestamp(revs, w.timestamp) {
            RemoteDecision::Pull
        } else {
            match local_latest {
                Some(l) => if l.timestamp == revs.last().timestamp {
                    RemoteDecision::Keep
                } else {
                    RemoteDecision::Conflict(ConflictReason::RemoteAndWorkingChanged)
                },
                None => RemoteDecision::Conflict(ConflictReason::NewLocalFile),
            }
        },
    }
}

/// The files update-from-remote extracts, per remote-tracked file in remote
/// ledger order, or the first conflict: all-or-nothing, a conflict anywhere
/// selects no file at all.
pub open spec fn spec_files_to_update_remote(
    remote: Seq<(Seq<char>, Seq<MetaView>)>,
    wd: Seq<(Seq<char>, MetaView)>,
    local: Seq<(Seq<char>, Seq<MetaView>)>,
) -> Result<Seq<(Seq<char>, MetaView)>, (Seq<char>, ConflictReason)>
    decreases remote.len(),
{
    if remote.len() == 0 {
        Ok(Seq::empty())
    } else {
        match spec_files_to_update_remote(remote.drop_last(), wd, local) {
            Err(c) => Err(c),
            Ok(rest) => match remote_decision(
                remote.last().1,
                assoc_get(wd, remote.last().0),
                ledger_latest(local, remote.last().0),
            ) {
                RemoteDecision::Keep => Ok(rest),
                RemoteDecision::Pull => Ok(rest.push((remote.last().0, remote.last().1.last()))),
                RemoteDecision::Conflict(reason) => Err((remote.last().0, reason)),
            },
        }
    }
}

/// Once a prefix of the remote ledger reports a conflict, every extension
/// reports that same conflict.
pub proof fn lemma_remote_plan_err_persists(
    remote: Seq<(Seq<char>, Seq<MetaView>)>,
    wd: Seq<(Seq<char>, MetaView)>,
    local: Seq<(Seq<char>, Seq<MetaView>)>,
    k: int,
)
    requires
        0 <= k <= remote.len(),
        spec_files_to_update_remote(remote.take(k), wd, local) is Err,
    ensures
        spec_files_to_update_remote(remote, wd, local) == spec_files_to_update_remote(
            remote.take(k),
            wd,
            local,
        ),
    decreases remote.len() - k,
{
    if k == remote.len() {
        assert(remote.take(k) =~= remote);
    } else {
        assert(remote.take(k + 1).drop_last() =~= remote.take(k));
        lemma_remote_plan_err_persists(remote, wd, local, k + 1);
    }
}

/// Decide, for every file the remote ledger tracks, whether the working
/// directory must be refreshed, consulting the local ledger where the
/// working copy's timestamp is unrecognized.  Returns either the revisions
/// to extract or the first conflict; on conflict nothing is selected.
pub fn files_to_update_remote(
    wd_hierarchy: &Snapshot,
    mt_local_hierarchy: &Hierarchy,
    mt_remote_hierarchy: &Hierarchy,
) -> (r: Result<Vec<(String, MetaData)>, Conflict>)
    requires
        wd_hierarchy.wf(),
        mt_local_hierarchy.wf(),
        mt_remote_hierarchy.wf(),
    ensures
        match r {
            Ok(v) => spec_files_to_update_remote(
                mt_remote_hierarchy@,
                wd_hierarchy@,
                mt_local_hierarchy@,
            ) == Ok::<Seq<(Seq<char>, MetaView)>, (Seq<char>, ConflictReason)>(entries_view(v@)),
            Err(c) => spec_files_to_update_remote(
                mt_remote_hierarchy@,
                wd_hierarchy@,
                mt_local_hierarchy@,
            ) == Err::<Seq<(Seq<char>, MetaView)>, (Seq<char>, ConflictReason)>(
                (c.filename@, c.reason),
            ),
        },
{
    let mut out: Vec<(String, MetaData)> = Vec::new();
    let files = mt_remote_hierarchy.get_files();
    let mut i: usize = 0;
    proof {
        assert(entries_view(out@) =~= Seq::<(Seq<char>, MetaView)>::empty());
    }
    while i < files.len()
        invariant
            i <= files.len(),
            files@ == mt_remote_hierarchy.files@,
            mt_remote_hierarchy.wf(),
            mt_local_hierarchy.wf(),
            wd_hierarchy.wf(),
            spec_files_to_update_remote(
                mt_remote_hierarchy@.take(i as int),
                wd_hierarchy@,
                mt_local_hierarchy@,
            ) == Ok::<Seq<(Seq<char>, MetaView)>, (Seq<char>, ConflictReason)>(entries_view(out@)),
        decreases files.len() - i,
    {
        proof {
            assert(mt_remote_hierarchy@.take(i as int + 1).drop_last() =~= mt_remote_hierarchy@.take(
                i as int,
            ));
            assert(mt_remote_hierarchy@.take(i as int + 1).last() == mt_remote_hierarchy@[i as int]);
        }
        let filename = &files[i].0;
        let metadataset = &files[i].1;
        assert(metadataset@ == mt_remote_hierarchy@[i as int].1);
        let last = match metadataset.get_last() {
            Some(m) => m,
            None => unreached(),
        };
        match wd_hierarchy.get(filename) {
            Some(x) => {
                let wd_timestamp = x.get_timestamp();
                let last_md_timestamp = last.get_timestamp();
                if wd_timestamp == last_md_timestamp {
                    // timestamps equal: nothing to do
                } else if metadataset.has_metadata_with_timestamp(wd_timestamp) {
                    // the working copy is a stale recorded revision: pull
                    out.push((filename.clone(), last.clone()));
                } else {
                    // unrecognized timestamp: the local ledger adjudicates
                    match mt_local_hierarchy.get_latest_meta_data(filename) {
                        Some(m) => {
                            if m.get_timestamp() == last_md_timestamp {
                                // the working copy is the version the local
                                // ledger already produced: compatible
                            } else {
                                let c = Conflict {
                                    filename: filename.clone(),
                                    reason: ConflictReason::RemoteAndWorkingChanged,
                                };
                                proof {
                                    lemma_remote_plan_err_persists(
                                        mt_remote_hierarchy@,
                                        wd_hierarchy@,
                                        mt_local_hierarchy@,
                                        i as int + 1,
                                    );
                                }
                                return Err(c);
                            }
                        },
                        None => {
                            let c = Conflict {
                                filename: filename.clone(),
                                reason: ConflictReason::NewLocalFile,
                            };
                            proof {
                                lemma_remote_plan_err_persists(
                                    mt_remote_hierarchy@,
                                    wd_hierarchy@,
                                    mt_local_hierarchy@,
                                    i as int + 1,
                                );
                            }
                            return Err(c);
                        },
                    }
                }
            },
            None => {
                // missing from the working directory: pull
                out.push((filename.clone(), last.clone()));
            },
        }
        proof {
            let spec_next = spec_files_to_update_remote(
                mt_remote_hierarchy@.take(i as int + 1),
                wd_hierarchy@,
                mt_local_hierarchy@,
            );
            assert(spec_next is Ok);
            assert(entries_view(out@) =~= spec_next->Ok_0);
        }
        i += 1;
    }
    proof {
        assert(mt_remote_hierarchy@.take(files@.len() as int) =~= mt_remote_hierarchy@);
    }
    Ok(out)
}

/// Does commit select this observed file?  Only when the ledger does not
/// track it yet, or when the working copy's timestamp is strictly newer
/// than the ledger's latest recorded one.  "Not newer" covers "older"
/// silently: commit after a rollback is a no-op by design.
pub open spec fn commit_new(local_latest: Option<MetaView>, w: MetaView) -> bool {
    match local_latest {
        None => true,
        Some(l) => l.timestamp < w.timestamp,
    }
}

/// The files commit records: per observed file, in snapshot order, those
/// that `commit_new` selects, with their observed revision (hash still
/// pending).
pub open spec fn spec_files_to_commit(
    wd: Seq<(Seq<char>, MetaView)>,
    local: Seq<(Seq<char>, Seq<MetaView>)>,
) -> Seq<(Seq<char>, MetaView)>
    decreases wd.len(),
{
    if wd.len() == 0 {
        Seq::empty()
    } else {
        let rest = spec_files_to_commit(wd.drop_last(), local);
        if commit_new(ledger_latest(local, wd.last().0), wd.last().1) {
            rest.push(wd.last())
        } else {
            rest
        }
    }
}

/// Decide, for every file observed in the working directory, whether a new
/// revision must be committed to the ledger and the store.
pub fn files_to_commit(wd_hierarchy: &Snapshot, mt_hierarchy: &Hierarchy) -> (r: Vec<
    (String, MetaData),
>)
    requires
        wd_hierarchy.wf(),
        mt_hierarchy.wf(),
    ensures
        entries_view(r@) == spec_files_to_commit(wd_hierarchy@, mt_hierarchy@),
{
    let mut out: Vec<(String, MetaData)> = Vec::new();
    let mut i: usize = 0;
    proof {
        assert(entries_view(out@) =~= Seq::<(Seq<char>, MetaView)>::empty());
    }
    while i < wd_hierarchy.entries.len()
        invariant
            i <= wd_hierarchy.entries.len(),
            mt_hierarchy.wf(),
            wd_hierarchy.wf(),
            entries_view(out@) == spec_files_to_commit(
                wd_hierarchy@.take(i as int),
                mt_hierarchy@,
            ),
        decreases wd_hierarchy.entries.len() - i,
    {
        proof {
            assert(wd_hierarchy@.take(i as int + 1).drop_last() =~= wd_hierarchy@.take(i as int));
            assert(wd_hierarchy@.take(i as int + 1).last() == wd_hierarchy@[i as int]);
        }
        let filename = &wd_hierarchy.entries[i].0;
        let metadata = &wd_hierarchy.entries[i].1;
        match mt_hierarchy.get_latest_meta_data(filename) {
            Some(x) => {
                if x.is_more_recent(metadata) {
                    // the working copy is strictly newer: commit it
                    out.push((filename.clone(), metadata.clone()));
                } else {
                    // not newer (equal or older): nothing to commit
                }
            },
            None => {
                // new file: commit it
                out.push((filename.clone(), metadata.clone()));
            },
        }
        proof {
            assert(entries_view(out@) =~= spec_files_to_commit(
                wd_hierarchy@.take(i as int + 1),
                mt_hierarchy@,
            ));
        }
        i += 1;
    }
    proof {
        assert(wd_hierarchy@.take(wd_hierarchy.entries@.len() as int) =~= wd_hierarchy@);
    }
    out
}

/// Attach, entry by entry, the content digests the store computed for a
/// commit plan.  Nothing else of any entry changes: the names, timestamps,
/// sizes and reserved fields stay, so applying the result to the ledger
/// appends exactly the observed revisions, now naming their content.
pub fn attach_hashes(plan: &mut Vec<(String, MetaData)>, hashes: &Vec<String>)
    requires
        hashes@.len() == old(plan)@.len(),
    ensures
        final(plan)@.len() == old(plan)@.len(),
        forall|i: int|
            0 <= i < old(plan)@.len() ==> {
                &&& (#[trigger] final(plan)@[i]).0 == old(plan)@[i].0
                &&& final(plan)@[i].1@.timestamp == old(plan)@[i].1@.timestamp
                &&& final(plan)@[i].1@.size == old(plan)@[i].1@.size
                &&& final(plan)@[i].1@.stored_hash == old(plan)@[i].1@.stored_hash
                &&& final(plan)@[i].1@.hash == hashes@[i]@
            },
{
    let mut k: usize = 0;
    while k < plan.len()
        invariant
            k <= plan.len(),
            plan@.len() == old(plan)@.len(),
            hashes@.len() == old(plan)@.len(),
            forall|i: int| k <= i < plan@.len() ==> #[trigger] plan@[i] == old(plan)@[i],
            forall|i: int|
                0 <= i < k ==> {
                    &&& (#[trigger] plan@[i]).0 == old(plan)@[i].0
                    &&& plan@[i].1@.timestamp == old(plan)@[i].1@.timestamp
                    &&& plan@[i].1@.size == old(plan)@[i].1@.size
                    &&& plan@[i].1@.stored_hash == old(plan)@[i].1@.stored_hash
                    &&& plan@[i].1@.hash == hashes@[i]@
                },
        decreases plan.len() - k,
    {
        let mut pair = plan.remove(k);
        pair.1.add_hash(hashes[k].clone());
        plan.insert(k, pair);
        proof {
            assert(forall|i: int|
                k + 1 <= i < plan@.len() ==> #[trigger] plan@[i] == old(plan)@[i]);
        }
        k += 1;
    }
}

} // verus!
