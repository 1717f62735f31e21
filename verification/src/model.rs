use vstd::prelude::*;
use vstd::pervasive::unreached;

verus! {

/// Spec-level image of one revision: the strings as character sequences.
pub ghost struct MetaView {
    pub timestamp: u64,
    pub size: u64,
    pub hash: Seq<char>,
    pub stored_hash: Seq<char>,
}

/// One committed revision of a file: the modification time of the source
/// file in whole seconds, the file's size in bytes, and the hex digest that
/// names its content in the store (empty until the content is committed).
/// `stored_hash` is a reserved field carried through persistence for
/// compatibility; it is never populated or read.
#[derive(Debug)]
pub struct MetaData {
    pub timestamp: u64,
    pub size: u64,
    pub hash: String,
    pub stored_hash: String,
}

impl View for MetaData {
    type V = MetaView;

    open spec fn view(&self) -> MetaView {
        MetaView {
            timestamp: self.timestamp,
            size: self.size,
            hash: self.hash@,
            stored_hash: self.stored_hash@,
        }
    }
}

impl Clone for MetaData {
    fn clone(&self) -> (r: Self)
        ensures
            r@ == self@,
    {
        MetaData {
            timestamp: self.timestamp,
            size: self.size,
            hash: self.hash.clone(),
            stored_hash: self.stored_hash.clone(),
        }
    }
}

impl MetaData {
    /// A revision as first observed in the working directory: no content in
    /// the store yet, so both digest fields are empty.
    pub fn new_without_hash(timestamp: u64, size: u64) -> (m: MetaData)
        ensures
            m@.timestamp == timestamp,
            m@.size == size,
            m@.hash == Seq::<char>::empty(),
            m@.stored_hash == Seq::<char>::empty(),
    {
        MetaData { timestamp, size, hash: String::new(), stored_hash: String::new() }
    }

    /// Attach the content digest the store computed for this revision.
    pub fn add_hash(&mut self, hash: String)
        ensures
            final(self)@.hash == hash@,
            final(self)@.timestamp == old(self)@.timestamp,
            final(self)@.size == old(self)@.size,
            final(self)@.stored_hash == old(self)@.stored_hash,
    {
        self.hash = hash;
    }

    /// Whether `other` was modified strictly later than `self`.
    pub fn is_more_recent(&self, other: &MetaData) -> (r: bool)
        ensures
            r == (self@.timestamp < other@.timestamp),
    {
        self.timestamp < other.timestamp
    }

    pub fn get_timestamp(&self) -> (r: u64)
        ensures
            r == self@.timestamp,
    {
        self.timestamp
    }

    pub fn get_hash(&self) -> (r: String)
        ensures
            r@ == self@.hash,
    {
        self.hash.clone()
    }
}

/// Whether some revision in a history carries exactly this timestamp.
pub open spec fn has_timestamp(revs: Seq<MetaView>, t: u64) -> bool {
    exists|i: int| 0 <= i < revs.len() && revs[i].timestamp == t
}

/// The append-only revision history of one file, in commit order (append
/// order is authoritative; the sequence need not be sorted by timestamp).
#[derive(Debug)]
pub struct MetaDataSet {
    pub metadata: Vec<MetaData>,
}

impl View for MetaDataSet {
    type V = Seq<MetaView>;

    open spec fn view(&self) -> Seq<MetaView> {
        self.metadata@.map_values(|m: MetaData| m@)
    }
}

impl MetaDataSet {
    /// A history is never empty once created.
    pub open spec fn wf(&self) -> bool {
        self@.len() > 0
    }

    /// The latest revision: the last one appended.
    pub fn get_last(&self) -> (r: Option<&MetaData>)
        ensures
            match r {
                Some(m) => self@.len() > 0 && m@ == self@.last(),
                None => self@.len() == 0,
            },
    {
        if self.metadata.len() == 0 {
            None
        } else {
            Some(&self.metadata[self.metadata.len() - 1])
        }
    }

    /// A history holding exactly one revision.
    pub fn new_simple_meta_data_set(m: MetaData) -> (r: MetaDataSet)
        ensures
            r@ == seq![m@],
            r.wf(),
    {
        let mut v: Vec<MetaData> = Vec::new();
        v.push(m);
        let r = MetaDataSet { metadata: v };
        proof {
            assert(r@ =~= seq![m@]);
        }
        r
    }

    /// Append a revision; existing revisions are never edited or reordered.
    pub fn add_revision(&mut self, m: MetaData)
        ensures
            final(self)@ == old(self)@.push(m@),
    {
        self.metadata.push(m);
        proof {
            assert(self@ =~= old(self)@.push(m@));
        }
    }

    /// Whether any recorded revision carries exactly this timestamp.
    pub fn has_metadata_with_timestamp(&self, timestamp: u64) -> (r: bool)
        ensures
            r == has_timestamp(self@, timestamp),
    {
        let mut i: usize = 0;
        while i < self.metadata.len()
            invariant
                i <= self.metadata.len(),
                forall|j: int| 0 <= j < i ==> self@[j].timestamp != timestamp,
            decreases self.metadata.len() - i,
        {
            if self.metadata[i].timestamp == timestamp {
                assert(self@[i as int].timestamp == timestamp);
                return true;
            }
            i += 1;
        }
        false
    }
}

/// The value at `name` in an association sequence of named entries, the last
/// occurrence deciding (names are unique wherever a ledger or a snapshot is
/// well formed, so at most one occurrence exists there).
pub open spec fn assoc_get<V>(s: Seq<(Seq<char>, V)>, name: Seq<char>) -> Option<V>
    decreases s.len(),
{
    if s.len() == 0 {
        None
    } else if s.last().0 == name {
        Some(s.last().1)
    } else {
        assoc_get(s.drop_last(), name)
    }
}

/// No two entries share a name.
pub open spec fn assoc_unique<V>(s: Seq<(Seq<char>, V)>) -> bool {
    forall|i: int, j: int| 0 <= i < j < s.len() ==> s[i].0 != s[j].0
}

/// In a sequence with unique names, the entry at any index is the one that
/// lookup by its name finds.
pub proof fn lemma_assoc_get_at<V>(s: Seq<(Seq<char>, V)>, i: int)
    requires
        assoc_unique(s),
        0 <= i < s.len(),
    ensures
        assoc_get(s, s[i].0) == Some(s[i].1),
    decreases s.len(),
{
    if i < s.len() - 1 {
        assert(s.last().0 != s[i].0);
        assert(forall|k: int| 0 <= k < s.drop_last().len() ==> s.drop_last()[k] == s[k]);
        lemma_assoc_get_at(s.drop_last(), i);
    }
}

/// A name that no entry carries is not found.
pub proof fn lemma_assoc_get_none<V>(s: Seq<(Seq<char>, V)>, name: Seq<char>)
    requires
        forall|i: int| 0 <= i < s.len() ==> s[i].0 != name,
    ensures
        assoc_get(s, name) is None,
    decreases s.len(),
{
    if s.len() > 0 {
        assert(forall|k: int| 0 <= k < s.drop_last().len() ==> s.drop_last()[k] == s[k]);
        lemma_assoc_get_none(s.drop_last(), name);
    }
}

/// A found value sits at some index under its name.
pub proof fn lemma_assoc_get_some<V>(s: Seq<(Seq<char>, V)>, name: Seq<char>)
    requires
        assoc_get(s, name) is Some,
    ensures
        exists|i: int|
            0 <= i < s.len() && s[i].0 == name && s[i].1 == assoc_get(s, name).unwrap(),
    decreases s.len(),
{
    if s.len() > 0 && s.last().0 != name {
        lemma_assoc_get_some(s.drop_last(), name);
        let i = choose|i: int|
            0 <= i < s.drop_last().len() && s.drop_last()[i].0 == name && s.drop_last()[i].1
                == assoc_get(s.drop_last(), name).unwrap();
        assert(s[i].0 == name && s[i].1 == assoc_get(s, name).unwrap());
    }
}

/// Lookup over an extended sequence: the new last entry answers for its own
/// name, every other name reads as before.
pub proof fn lemma_assoc_get_push<V>(s: Seq<(Seq<char>, V)>, e: (Seq<char>, V), name: Seq<char>)
    ensures
        assoc_get(s.push(e), name) == if e.0 == name {
            Some(e.1)
        } else {
            assoc_get(s, name)
        },
{
    assert(s.push(e).len() == s.len() + 1);
    assert(s.push(e).last() == e);
    assert(s.push(e).drop_last() =~= s);
}

/// The image of named executable entries at the spec level.
pub open spec fn entries_view(s: Seq<(String, MetaData)>) -> Seq<(Seq<char>, MetaView)> {
    s.map_values(|p: (String, MetaData)| (p.0@, p.1@))
}

/// The latest recorded revision of `name` in a ledger's files, if the name
/// is tracked.
pub open spec fn ledger_latest(
    files: Seq<(Seq<char>, Seq<MetaView>)>,
    name: Seq<char>,
) -> Option<MetaView> {
    match assoc_get(files, name) {
        None => None,
        Some(revs) => if revs.len() == 0 {
            None
        } else {
            Some(revs.last())
        },
    }
}

/// Every tracked name has at least one revision.
pub open spec fn histories_nonempty(files: Seq<(Seq<char>, Seq<MetaView>)>) -> bool {
    forall|i: int| 0 <= i < files.len() ==> files[i].1.len() > 0
}

/// Append a revision to the (unique) entry carrying `name`; entries with
/// other names are untouched and keep their places.
pub open spec fn append_rev(
    files: Seq<(Seq<char>, Seq<MetaView>)>,
    name: Seq<char>,
    m: MetaView,
) -> Seq<(Seq<char>, Seq<MetaView>)>
    decreases files.len(),
{
    if files.len() == 0 {
        files
    } else if files.last().0 == name {
        files.drop_last().push((name, files.last().1.push(m)))
    } else {
        append_rev(files.drop_last(), name, m).push(files.last())
    }
}

/// One ledger mutation: append the revision to the named history if the
/// name is tracked, else create a new single-revision history at the end.
pub open spec fn apply_one(
    files: Seq<(Seq<char>, Seq<MetaView>)>,
    name: Seq<char>,
    m: MetaView,
) -> Seq<(Seq<char>, Seq<MetaView>)> {
    if assoc_get(files, name) is Some {
        append_rev(files, name, m)
    } else {
        files.push((name, seq![m]))
    }
}

/// Apply a sequence of named revisions to a ledger's files, in order.
pub open spec fn spec_apply(
    files: Seq<(Seq<char>, Seq<MetaView>)>,
    ups: Seq<(Seq<char>, MetaView)>,
) -> Seq<(Seq<char>, Seq<MetaView>)>
    decreases ups.len(),
{
    if ups.len() == 0 {
        files
    } else {
        apply_one(spec_apply(files, ups.drop_last()), ups.last().0, ups.last().1)
    }
}

/// What `append_rev` does entry by entry when names are unique: the named
/// entry gets the revision appended, every other entry is untouched.
pub proof fn lemma_append_rev(files: Seq<(Seq<char>, Seq<MetaView>)>, name: Seq<char>, m: MetaView)
    requires
        assoc_unique(files),
    ensures
        append_rev(files, name, m).len() == files.len(),
        forall|i: int|
            0 <= i < files.len() ==> (#[trigger] append_rev(files, name, m)[i]).0 == files[i].0,
        forall|i: int|
            0 <= i < files.len() && files[i].0 != name ==> #[trigger] append_rev(
                files,
                name,
                m,
            )[i] == files[i],
        forall|i: int|
            0 <= i < files.len() && files[i].0 == name ==> (#[trigger] append_rev(
                files,
                name,
                m,
            )[i]).1 == files[i].1.push(m),
    decreases files.len(),
{
    if files.len() > 0 {
        assert(forall|k: int|
            0 <= k < files.drop_last().len() ==> files.drop_last()[k] == files[k]);
        if files.last().0 == name {
            assert(forall|i: int| 0 <= i < files.len() - 1 ==> files[i].0 != name);
        } else {
            lemma_append_rev(files.drop_last(), name, m);
        }
    }
}

/// With unique names, `append_rev` is a point update at the index that
/// carries the name.
pub proof fn lemma_append_rev_update(
    files: Seq<(Seq<char>, Seq<MetaView>)>,
    name: Seq<char>,
    m: MetaView,
    i: int,
)
    requires
        assoc_unique(files),
        0 <= i < files.len(),
        files[i].0 == name,
    ensures
        append_rev(files, name, m) == files.update(i, (name, files[i].1.push(m))),
{
    lemma_append_rev(files, name, m);
    assert(append_rev(files, name, m) =~= files.update(i, (name, files[i].1.push(m))));
}

/// Lookup only reads the names and the value under the name asked for.
pub proof fn lemma_assoc_get_pointwise<V>(
    s1: Seq<(Seq<char>, V)>,
    s2: Seq<(Seq<char>, V)>,
    name: Seq<char>,
)
    requires
        s1.len() == s2.len(),
        forall|i: int| 0 <= i < s1.len() ==> s1[i].0 == s2[i].0,
        forall|i: int| 0 <= i < s1.len() && s1[i].0 == name ==> s1[i].1 == s2[i].1,
    ensures
        assoc_get(s1, name) == assoc_get(s2, name),
    decreases s1.len(),
{
    if s1.len() > 0 {
        assert(forall|k: int| 0 <= k < s1.drop_last().len() ==> s1.drop_last()[k] == s1[k]);
        assert(forall|k: int| 0 <= k < s2.drop_last().len() ==> s2.drop_last()[k] == s2[k]);
        lemma_assoc_get_pointwise(s1.drop_last(), s2.drop_last(), name);
    }
}

/// What one mutation does to lookups: the named history gains the revision
/// (or comes into being), every other name reads as before.  Well-formedness
/// is preserved.
pub proof fn lemma_apply_one(
    files: Seq<(Seq<char>, Seq<MetaView>)>,
    name: Seq<char>,
    m: MetaView,
    n: Seq<char>,
)
    requires
        assoc_unique(files),
        histories_nonempty(files),
    ensures
        assoc_unique(apply_one(files, name, m)),
        histories_nonempty(apply_one(files, name, m)),
        assoc_get(apply_one(files, name, m), name) == Some(
            match assoc_get(files, name) {
                Some(revs) => revs.push(m),
                None => seq![m],
            },
        ),
        n != name ==> assoc_get(apply_one(files, name, m), n) == assoc_get(files, n),
{
    let r = apply_one(files, name, m);
    if assoc_get(files, name) is Some {
        lemma_assoc_get_some(files, name);
        let i = choose|i: int|
            0 <= i < files.len() && files[i].0 == name && files[i].1 == assoc_get(
                files,
                name,
            ).unwrap();
        lemma_append_rev_update(files, name, m, i);
        assert(forall|k: int| 0 <= k < r.len() ==> r[k].0 == files[k].0);
        lemma_assoc_get_at(r, i);
        if n != name {
            lemma_assoc_get_pointwise(files, r, n);
        }
    } else {
        assert(forall|j: int| 0 <= j < files.len() ==> files[j].0 != name) by {
            if exists|j: int| 0 <= j < files.len() && files[j].0 == name {
                let j = choose|j: int| 0 <= j < files.len() && files[j].0 == name;
                lemma_assoc_get_at(files, j);
            }
        }
        assert(r.drop_last() =~= files);
        assert(assoc_get(r, name) == Some(seq![m]));
    }
}

/// Applying a revision set preserves a ledger's well-formedness.
pub proof fn lemma_apply_wf(
    files: Seq<(Seq<char>, Seq<MetaView>)>,
    ups: Seq<(Seq<char>, MetaView)>,
)
    requires
        assoc_unique(files),
        histories_nonempty(files),
    ensures
        assoc_unique(spec_apply(files, ups)),
        histories_nonempty(spec_apply(files, ups)),
    decreases ups.len(),
{
    if ups.len() > 0 {
        lemma_apply_wf(files, ups.drop_last());
        lemma_apply_one(spec_apply(files, ups.drop_last()), ups.last().0, ups.last().1, ups.last().0);
    }
}

/// What applying a revision set with unique names does to the latest
/// revision of each name: a name in the set now reads its new revision as
/// latest, every other name reads as before.
pub proof fn lemma_apply_latest(
    files: Seq<(Seq<char>, Seq<MetaView>)>,
    ups: Seq<(Seq<char>, MetaView)>,
    n: Seq<char>,
)
    requires
        assoc_unique(files),
        histories_nonempty(files),
        assoc_unique(ups),
    ensures
        match assoc_get(ups, n) {
            Some(u) => ledger_latest(spec_apply(files, ups), n) == Some(u),
            None => ledger_latest(spec_apply(files, ups), n) == ledger_latest(files, n),
        },
    decreases ups.len(),
{
    if ups.len() > 0 {
        let prev = spec_apply(files, ups.drop_last());
        lemma_apply_wf(files, ups.drop_last());
        assert(forall|k: int| 0 <= k < ups.drop_last().len() ==> ups.drop_last()[k] == ups[k]);
        lemma_apply_one(prev, ups.last().0, ups.last().1, n);
        if n == ups.last().0 {
            assert(assoc_get(ups, n) == Some(ups.last().1));
        } else {
            lemma_apply_latest(files, ups.drop_last(), n);
        }
    }
}

/// Applying revisions never edits or reorders what a history already
/// holds, and never untracks a name: the old history of every tracked name
/// is a prefix of its new one.
pub proof fn lemma_apply_append_only(
    files: Seq<(Seq<char>, Seq<MetaView>)>,
    ups: Seq<(Seq<char>, MetaView)>,
    n: Seq<char>,
)
    requires
        assoc_unique(files),
        histories_nonempty(files),
        assoc_get(files, n) is Some,
    ensures
        assoc_get(spec_apply(files, ups), n) is Some,
        assoc_get(spec_apply(files, ups), n).unwrap().len() >= assoc_get(files, n).unwrap().len(),
        assoc_get(spec_apply(files, ups), n).unwrap().take(
            assoc_get(files, n).unwrap().len() as int,
        ) == assoc_get(files, n).unwrap(),
    decreases ups.len(),
{
    let revs = assoc_get(files, n).unwrap();
    if ups.len() == 0 {
        assert(revs.take(revs.len() as int) =~= revs);
    } else {
        let prev = spec_apply(files, ups.drop_last());
        lemma_apply_append_only(files, ups.drop_last(), n);
        lemma_apply_wf(files, ups.drop_last());
        lemma_apply_one(prev, ups.last().0, ups.last().1, n);
        let prevrevs = assoc_get(prev, n).unwrap();
        if n == ups.last().0 {
            assert((prevrevs.push(ups.last().1)).take(revs.len() as int) =~= prevrevs.take(
                revs.len() as int,
            ));
        }
    }
}

/// The revision ledger: a monotonically incremented revision counter and,
/// per tracked filename, an append-only revision history.
#[derive(Debug)]
pub struct Hierarchy {
    pub nb_revision: i32,
    pub files: Vec<(String, MetaDataSet)>,
}

/// The image of named executable histories at the spec level.
pub open spec fn ledger_view(s: Seq<(String, MetaDataSet)>) -> Seq<(Seq<char>, Seq<MetaView>)> {
    s.map_values(|p: (String, MetaDataSet)| (p.0@, p.1@))
}

impl View for Hierarchy {
    type V = Seq<(Seq<char>, Seq<MetaView>)>;

    open spec fn view(&self) -> Seq<(Seq<char>, Seq<MetaView>)> {
        ledger_view(self.files@)
    }
}

impl Hierarchy {
    /// The counter is positive, tracked names are unique, and every tracked
    /// name has a revision.
    pub open spec fn wf(&self) -> bool {
        self.nb_revision >= 1 && assoc_unique(self@) && histories_nonempty(self@)
    }

    /// The latest recorded revision of a tracked name.
    pub open spec fn spec_latest(&self, name: Seq<char>) -> Option<MetaView> {
        ledger_latest(self@, name)
    }

    /// The ledger a repository starts with: no files, counter at one.
    pub fn new_empty() -> (h: Hierarchy)
        ensures
            h.nb_revision == 1,
            h@ == Seq::<(Seq<char>, Seq<MetaView>)>::empty(),
            h.wf(),
    {
        let h = Hierarchy { nb_revision: 1, files: Vec::new() };
        proof {
            assert(h@ =~= Seq::<(Seq<char>, Seq<MetaView>)>::empty());
        }
        h
    }

    pub fn get_number_of_files(&self) -> (r: usize)
        ensures
            r == self@.len(),
    {
        self.files.len()
    }

    /// Where `filename` sits among the tracked files, if anywhere.
    fn position_of(&self, filename: &String) -> (r: Option<usize>)
        ensures
            match r {
                Some(i) => i < self@.len() && self@[i as int].0 == filename@,
                None => forall|j: int| 0 <= j < self@.len() ==> self@[j].0 != filename@,
            },
    {
        let mut i: usize = 0;
        while i < self.files.len()
            invariant
                i <= self.files.len(),
                forall|j: int| 0 <= j < i ==> self@[j].0 != filename@,
            decreases self.files.len() - i,
        {
            if self.files[i].0 == *filename {
                assert(self@[i as int].0 == filename@);
                return Some(i);
            }
            assert(self@[i as int].0 != filename@);
            i += 1;
        }
        None
    }

    /// The latest recorded revision of `filename`, or absence if the name
    /// is not tracked.
    pub fn get_latest_meta_data(&self, filename: &String) -> (r: Option<&MetaData>)
        requires
            self.wf(),
        ensures
            match r {
                Some(m) => self.spec_latest(filename@) == Some(m@),
                None => self.spec_latest(filename@) is None,
            },
    {
        match self.position_of(filename) {
            Some(i) => {
                proof {
                    lemma_assoc_get_at(self@, i as int);
                }
                match self.files[i].1.get_last() {
                    Some(m) => Some(m),
                    None => unreached(),
                }
            },
            None => {
                proof {
                    lemma_assoc_get_none(self@, filename@);
                }
                None
            },
        }
    }

    /// Whether `filename` is new to the ledger (tracked by no entry).
    pub fn new_metadata(&self, filename: &String) -> (r: bool)
        requires
            self.wf(),
        ensures
            r == (assoc_get(self@, filename@) is None),
    {
        match self.position_of(filename) {
            Some(i) => {
                proof {
                    lemma_assoc_get_at(self@, i as int);
                }
                false
            },
            None => {
                proof {
                    lemma_assoc_get_none(self@, filename@);
                }
                true
            },
        }
    }

    pub fn get_files(&self) -> (r: &Vec<(String, MetaDataSet)>)
        ensures
            r@ == self.files@,
    {
        &self.files
    }

    /// Rebuild a ledger from persisted parts, admitting it only when it is
    /// well formed: a positive counter, unique names, and no empty history.
    /// Malformed persisted state is answered with absence, not with a
    /// ledger that breaks the invariants.
    pub fn from_entries(nb_revision: i32, files: Vec<(String, MetaDataSet)>) -> (r: Option<
        Hierarchy,
    >)
        ensures
            match r {
                Some(h) => {
                    &&& h.nb_revision == nb_revision
                    &&& h.files@ == files@
                    &&& h.wf()
                },
                None => !(nb_revision >= 1 && assoc_unique(ledger_view(files@))
                    && histories_nonempty(ledger_view(files@))),
            },
    {
        if nb_revision < 1 {
            return None;
        }
        let ghost v = ledger_view(files@);
        let mut i: usize = 0;
        while i < files.len()
            invariant
                i <= files.len(),
                v == ledger_view(files@),
                forall|a: int| 0 <= a < i ==> v[a].1.len() > 0,
                forall|a: int, b: int| 0 <= a < b < i ==> v[a].0 != v[b].0,
            decreases files.len() - i,
        {
            if files[i].1.metadata.len() == 0 {
                assert(v[i as int].1.len() == 0);
                return None;
            }
            let mut j: usize = 0;
            while j < i
                invariant
                    j <= i,
                    i < files.len(),
                    v == ledger_view(files@),
                    forall|a: int| 0 <= a < j ==> v[a].0 != v[i as int].0,
                decreases i - j,
            {
                if files[j].0 == files[i].0 {
                    assert(v[j as int].0 == v[i as int].0);
                    return None;
                }
                assert(v[j as int].0 != v[i as int].0);
                j += 1;
            }
            i += 1;
        }
        Some(Hierarchy { nb_revision, files })
    }

    /// Apply a set of new revisions: per entry, append to the named history
    /// or create it; the counter is bumped exactly once per call, also when
    /// the set is empty.
    pub fn update(&mut self, new_metadata_map: Vec<(String, MetaData)>)
        requires
            old(self).wf(),
            old(self).nb_revision < i32::MAX,
        ensures
            final(self).nb_revision == old(self).nb_revision + 1,
            final(self)@ == spec_apply(old(self)@, entries_view(new_metadata_map@)),
            final(self).wf(),
    {
        self.nb_revision = self.nb_revision + 1;
        let ghost files0 = self@;
        let ghost nb1 = self.nb_revision;
        let ghost ups = entries_view(new_metadata_map@);
        let mut k: usize = 0;
        while k < new_metadata_map.len()
            invariant
                k <= new_metadata_map.len(),
                self.nb_revision == nb1,
                ups == entries_view(new_metadata_map@),
                assoc_unique(files0),
                histories_nonempty(files0),
                self@ == spec_apply(files0, ups.take(k as int)),
            decreases new_metadata_map.len() - k,
        {
            proof {
                lemma_apply_wf(files0, ups.take(k as int));
                assert(ups.take(k as int + 1).drop_last() =~= ups.take(k as int));
                assert(ups.take(k as int + 1).last() == ups[k as int]);
            }
            let ghost pre = self@;
            let name = new_metadata_map[k].0.clone();
            let m = new_metadata_map[k].1.clone();
            match self.position_of(&name) {
                None => {
                    proof {
                        lemma_assoc_get_none(pre, name@);
                    }
                    let set = MetaDataSet::new_simple_meta_data_set(m);
                    self.files.push((name, set));
                    proof {
                        assert(self@ =~= pre.push((name@, seq![m@])));
                    }
                },
                Some(i) => {
                    proof {
                        lemma_assoc_get_at(pre, i as int);
                        lemma_append_rev_update(pre, name@, m@, i as int);
                    }
                    let mut pair = self.files.remove(i);
                    pair.1.add_revision(m);
                    self.files.insert(i, pair);
                    proof {
                        assert(self@ =~= pre.update(i as int, (name@, pre[i as int].1.push(m@))));
                    }
                },
            }
            k += 1;
        }
        proof {
            assert(ups.take(new_metadata_map@.len() as int) =~= ups);
            lemma_apply_wf(files0, ups);
        }
    }
}

} // verus!
