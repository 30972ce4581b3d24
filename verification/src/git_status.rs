//! Git status per file, and the directories that contain changes.
use vstd::prelude::*;
use crate::paths::{parent_of, parent_path};
use crate::text::str_eq;

verus! {

/// Git status for a single file.
#[derive(Debug, Clone, Copy, PartialEq, Eq, Structural)]
pub enum FileStatus {
    Modified,
    Added,
    Deleted,
    Renamed,
    Untracked,
}

/// The marker text shown in the file tree for a status.
pub open spec fn marker_of(s: FileStatus) -> Seq<char> {
    match s {
        FileStatus::Modified => seq!['[', 'M', ']'],
        FileStatus::Added => seq!['[', 'A', ']'],
        FileStatus::Deleted => seq!['[', 'D', ']'],
        FileStatus::Renamed => seq!['[', 'R', ']'],
        FileStatus::Untracked => seq!['[', '?', ']'],
    }
}

impl FileStatus {
    /// Short marker string for display in the file tree.
    pub fn marker(&self) -> (r: &'static str)
        ensures
            r@ == marker_of(*self),
    {
        match self {
            FileStatus::Modified => {
                proof { reveal_strlit("[M]"); }
                "[M]"
            },
            FileStatus::Added => {
                proof { reveal_strlit("[A]"); }
                "[A]"
            },
            FileStatus::Deleted => {
                proof { reveal_strlit("[D]"); }
                "[D]"
            },
            FileStatus::Renamed => {
                proof { reveal_strlit("[R]"); }
                "[R]"
            },
            FileStatus::Untracked => {
                proof { reveal_strlit("[?]"); }
                "[?]"
            },
        }
    }
}

/// The status flags of one entry of a repository status listing (the bits of
/// a libgit2 status that the tree shows).
#[derive(Debug, Clone, Copy, PartialEq, Eq)]
pub struct StatusFlags {
    pub index_new: bool,
    pub index_modified: bool,
    pub index_deleted: bool,
    pub index_renamed: bool,
    pub index_typechange: bool,
    pub wt_new: bool,
    pub wt_modified: bool,
    pub wt_deleted: bool,
    pub wt_typechange: bool,
    pub wt_renamed: bool,
}

/// How status flags map to a displayed status; working tree flags take
/// priority over index flags.
pub open spec fn status_of_flags(f: StatusFlags) -> Option<FileStatus> {
    if f.wt_modified || f.wt_typechange {
        Some(FileStatus::Modified)
    } else if f.wt_deleted {
        Some(FileStatus::Deleted)
    } else if f.wt_renamed {
        Some(FileStatus::Renamed)
    } else if f.wt_new {
        Some(FileStatus::Untracked)
    } else if f.index_modified || f.index_typechange {
        Some(FileStatus::Modified)
    } else if f.index_new {
        Some(FileStatus::Added)
    } else if f.index_deleted {
        Some(FileStatus::Deleted)
    } else if f.index_renamed {
        Some(FileStatus::Renamed)
    } else {
        None
    }
}

/// Whether any working-tree flag is set.
pub open spec fn any_wt_flag(f: StatusFlags) -> bool {
    f.wt_new || f.wt_modified || f.wt_deleted || f.wt_typechange || f.wt_renamed
}

/// What each displayed status means in terms of the flags: working-tree
/// changes come first (modified or type change, then deleted, then renamed,
/// then new, which is untracked); only an entry with no working-tree flag
/// shows its index change (modified or type change, then new, which is
/// added, then deleted, then renamed); an entry with no flag shows nothing.
pub proof fn law_status_of_flags(f: StatusFlags)
    ensures
        status_of_flags(f) == Some(FileStatus::Untracked)
            <==> (f.wt_new && !f.wt_modified && !f.wt_typechange && !f.wt_deleted && !f.wt_renamed),
        status_of_flags(f) == Some(FileStatus::Added)
            <==> (f.index_new && !any_wt_flag(f) && !f.index_modified && !f.index_typechange),
        status_of_flags(f) == Some(FileStatus::Modified)
            <==> (f.wt_modified || f.wt_typechange || (!any_wt_flag(f) && (f.index_modified || f.index_typechange))),
        status_of_flags(f) == Some(FileStatus::Deleted)
            <==> ((f.wt_deleted && !f.wt_modified && !f.wt_typechange)
                || (!any_wt_flag(f) && !f.index_modified && !f.index_typechange && !f.index_new && f.index_deleted)),
        status_of_flags(f) == Some(FileStatus::Renamed)
            <==> ((f.wt_renamed && !f.wt_modified && !f.wt_typechange && !f.wt_deleted)
                || (!any_wt_flag(f) && !f.index_modified && !f.index_typechange && !f.index_new && !f.index_deleted && f.index_renamed)),
        status_of_flags(f) is None
            <==> (!any_wt_flag(f) && !f.index_new && !f.index_modified && !f.index_deleted && !f.index_renamed && !f.index_typechange),
{
}

/// Map status flags to the displayed status.
/// Working tree status takes priority over index status.
pub fn map_git2_status(status: StatusFlags) -> (r: Option<FileStatus>)
    ensures
        r == status_of_flags(status),
{
    if status.wt_modified || status.wt_typechange {
        return Some(FileStatus::Modified);
    }
    if status.wt_deleted {
        return Some(FileStatus::Deleted);
    }
    if status.wt_renamed {
        return Some(FileStatus::Renamed);
    }
    if status.wt_new {
        return Some(FileStatus::Untracked);
    }
    if status.index_modified || status.index_typechange {
        return Some(FileStatus::Modified);
    }
    if status.index_new {
        return Some(FileStatus::Added);
    }
    if status.index_deleted {
        return Some(FileStatus::Deleted);
    }
    if status.index_renamed {
        return Some(FileStatus::Renamed);
    }
    None
}

/// The proper ancestors of a path: its parent, the parent's parent, and so on.
pub open spec fn ancestors(p: Seq<char>) -> Set<Seq<char>>
    decreases p.len(),
{
    match parent_of(p) {
        Some(q) => if q.len() < p.len() { ancestors(q).insert(q) } else { Set::empty() },
        None => Set::empty(),
    }
}

/// A parent is always shorter than its child.
pub proof fn lemma_parent_shorter(p: Seq<char>)
    ensures
        parent_of(p) matches Some(q) ==> q.len() < p.len(),
{
    crate::paths::lemma_last_slash_index(p);
    let i = crate::paths::last_slash_index(p);
    if parent_of(p) is Some && i == 0 && p.len() == 1 {
        assert(p =~= seq!['/']);
    }
}

/// The status view of a list of entries: later entries override earlier ones.
pub open spec fn status_map(v: Seq<(String, FileStatus)>) -> Map<Seq<char>, FileStatus>
    decreases v.len(),
{
    if v.len() == 0 {
        Map::empty()
    } else {
        status_map(v.drop_last()).insert(v.last().0@, v.last().1)
    }
}

/// The statuses recorded from a status listing: each path with a shown status,
/// a later entry for the same path replacing an earlier one.
pub open spec fn listing_map(v: Seq<(String, StatusFlags)>) -> Map<Seq<char>, FileStatus>
    decreases v.len(),
{
    if v.len() == 0 {
        Map::empty()
    } else {
        match status_of_flags(v.last().1) {
            Some(s) => listing_map(v.drop_last()).insert(v.last().0@, s),
            None => listing_map(v.drop_last()),
        }
    }
}

/// Directories that contain a changed file: the proper ancestors of the keys.
pub open spec fn changed_dirs_of(m: Map<Seq<char>, FileStatus>) -> Set<Seq<char>> {
    Set::new(|d: Seq<char>| exists|f: Seq<char>| m.dom().contains(f) && #[trigger] ancestors(f).contains(d))
}

/// Git status data for a repository.
pub struct GitStatus {
    /// Per-file status, keyed by absolute path (each path once).
    file_statuses: Vec<(String, FileStatus)>,
    /// Directories that contain changed files (absolute paths).
    changed_dirs: Vec<String>,
}

/// Paths in `v` are pairwise distinct.
pub open spec fn distinct_keys(v: Seq<(String, FileStatus)>) -> bool {
    forall|i: int, j: int| 0 <= i < j < v.len() ==> v[i].0@ != v[j].0@
}

/// Strings in `v` are pairwise distinct.
pub open spec fn distinct_strs(v: Seq<String>) -> bool {
    forall|i: int, j: int| 0 <= i < j < v.len() ==> v[i]@ != v[j]@
}

proof fn lemma_status_map_distinct(v: Seq<(String, FileStatus)>)
    requires
        distinct_keys(v),
    ensures
        forall|i: int| 0 <= i < v.len() ==> status_map(v).dom().contains(#[trigger] v[i].0@) && status_map(v)[v[i].0@] == v[i].1,
        forall|p: Seq<char>| status_map(v).dom().contains(p) ==> exists|i: int| 0 <= i < v.len() && v[i].0@ == p,
    decreases v.len(),
{
    if v.len() > 0 {
        let w = v.drop_last();
        let last = v[v.len() - 1];
        assert(distinct_keys(w)) by {
            assert forall|i: int, j: int| 0 <= i < j < w.len() implies w[i].0@ != w[j].0@ by {
                assert(w[i] == v[i] && w[j] == v[j]);
            }
        }
        lemma_status_map_distinct(w);
        assert(status_map(v) == status_map(w).insert(last.0@, last.1));
        assert forall|i: int| 0 <= i < v.len() implies status_map(v).dom().contains(#[trigger] v[i].0@) && status_map(v)[v[i].0@] == v[i].1 by {
            if i < v.len() - 1 {
                assert(w[i] == v[i]);
                assert(status_map(w).dom().contains(w[i].0@));
                assert(v[i].0@ != last.0@);
            }
        }
        assert forall|p: Seq<char>| status_map(v).dom().contains(p) implies exists|i: int| 0 <= i < v.len() && v[i].0@ == p by {
            if p != last.0@ {
                assert(status_map(w).dom().contains(p));
                let i = choose|i: int| 0 <= i < w.len() && w[i].0@ == p;
                assert(v[i] == w[i]);
            } else {
                assert(v[v.len() - 1].0@ == p);
            }
        }
    }
}

/// The paths of the entries with status `st`, in order.
pub open spec fn keys_with_status(v: Seq<(String, FileStatus)>, st: FileStatus) -> Seq<Seq<char>>
    decreases v.len(),
{
    if v.len() == 0 {
        Seq::empty()
    } else if v.last().1 == st {
        keys_with_status(v.drop_last(), st).push(v.last().0@)
    } else {
        keys_with_status(v.drop_last(), st)
    }
}

impl GitStatus {
    /// The paths with status `st`, in the order the listing recorded them.
    pub closed spec fn paths_with(&self, st: FileStatus) -> Seq<Seq<char>> {
        keys_with_status(self.file_statuses@, st)
    }

    /// The status of each path with changes.
    pub closed spec fn statuses(&self) -> Map<Seq<char>, FileStatus> {
        status_map(self.file_statuses@)
    }

    /// The directories that contain changed files.
    pub closed spec fn dirs(&self) -> Set<Seq<char>> {
        str_set(self.changed_dirs@)
    }

    /// Keys and directories are each held once, and the directories are
    /// exactly the ancestors of the changed files.
    #[verifier::type_invariant]
    closed spec fn wf(&self) -> bool {
        &&& distinct_keys(self.file_statuses@)
        &&& distinct_strs(self.changed_dirs@)
        &&& self.dirs() == changed_dirs_of(self.statuses())
    }

    /// Build the status data from a repository status listing of absolute
    /// paths and their flags.
    pub fn from_listing(listing: Vec<(String, StatusFlags)>) -> (r: Self)
        ensures
            r.statuses() == listing_map(listing@),
            r.dirs() == changed_dirs_of(r.statuses()),
    {
        let mut file_statuses: Vec<(String, FileStatus)> = Vec::new();
        let ghost lv = listing@;
        for entry in it: listing.into_iter()
            invariant
                it.seq() == lv,
                distinct_keys(file_statuses@),
                status_map(file_statuses@) == listing_map(lv.take(it.index() as int)),
        {
            let ghost i = it.index() as int;
            proof {
                assert(lv.take(i + 1).drop_last() =~= lv.take(i));
                assert(lv.take(i + 1).last() == entry);
            }
            let (path, flags) = entry;
            match map_git2_status(flags) {
                Some(fs) => {
                    insert_status(&mut file_statuses, path, fs);
                },
                None => {},
            }
        }
        proof {
            assert(lv.take(lv.len() as int) =~= lv);
        }
        let changed_dirs = propagate_to_dirs(&file_statuses);
        let r = GitStatus { file_statuses, changed_dirs };
        r
    }

    /// Get the status of a file by its absolute path.
    pub fn file_status(&self, path: &str) -> (r: Option<FileStatus>)
        ensures
            r == (if self.statuses().dom().contains(path@) { Some(self.statuses()[path@]) } else { None }),
    {
        proof {
            use_type_invariant(self);
        }
        let mut i: usize = 0;
        while i < self.file_statuses.len()
            invariant
                i <= self.file_statuses@.len(),
                distinct_keys(self.file_statuses@),
                forall|j: int| 0 <= j < i ==> self.file_statuses@[j].0@ != path@,
            decreases self.file_statuses.len() - i,
        {
            if str_eq(self.file_statuses[i].0.as_str(), path) {
                proof {
                    lemma_status_map_distinct(self.file_statuses@);
                    assert(self.statuses().dom().contains(self.file_statuses@[i as int].0@));
                }
                return Some(self.file_statuses[i].1);
            }
            i = i + 1;
        }
        proof {
            lemma_status_map_distinct(self.file_statuses@);
            if self.statuses().dom().contains(path@) {
                let j = choose|j: int| 0 <= j < self.file_statuses@.len() && self.file_statuses@[j].0@ == path@;
            }
        }
        None
    }

    /// Return all files with the given status, each once.
    pub fn files_with_status(&self, status: FileStatus) -> (r: Vec<String>)
        ensures
            distinct_strs(r@),
            str_set(r@) == Set::new(|p: Seq<char>| self.statuses().dom().contains(p) && self.statuses()[p] == status),
            crate::comments::lines_view(r@) == self.paths_with(status),
    {
        proof {
            use_type_invariant(self);
            lemma_status_map_distinct(self.file_statuses@);
        }
        let mut r: Vec<String> = Vec::new();
        let mut i: usize = 0;
        while i < self.file_statuses.len()
            invariant
                i <= self.file_statuses@.len(),
                distinct_keys(self.file_statuses@),
                distinct_strs(r@),
                str_set(r@) == Set::new(|p: Seq<char>| exists|j: int| 0 <= j < i && self.file_statuses@[j].0@ == p && self.file_statuses@[j].1 == status),
                crate::comments::lines_view(r@) == keys_with_status(self.file_statuses@.take(i as int), status),
            decreases self.file_statuses.len() - i,
        {
            let ghost old_r = r@;
            proof {
                let t = self.file_statuses@.take(i as int + 1);
                assert(t.drop_last() =~= self.file_statuses@.take(i as int));
                assert(t.last() == self.file_statuses@[i as int]);
            }
            if self.file_statuses[i].1 == status {
                r.push(self.file_statuses[i].0.clone());
                proof {
                    assert forall|a: int, b: int| 0 <= a < b < r@.len() implies r@[a]@ != r@[b]@ by {
                        if b == r@.len() - 1 {
                            assert(old_r[a] == r@[a]);
                            if r@[a]@ == r@[b]@ {
                                assert(str_set(old_r).contains(r@[a]@));
                            }
                        } else {
                            assert(old_r[a] == r@[a] && old_r[b] == r@[b]);
                        }
                    }
                }
            }
            proof {
                let target = Set::new(|p: Seq<char>| exists|j: int| 0 <= j < i + 1 && self.file_statuses@[j].0@ == p && self.file_statuses@[j].1 == status);
                assert forall|p: Seq<char>| str_set(r@).contains(p) <==> target.contains(p) by {
                    if str_set(r@).contains(p) {
                        let k = choose|k: int| 0 <= k < r@.len() && r@[k]@ == p;
                        if k < old_r.len() {
                            assert(old_r[k] == r@[k]);
                            assert(str_set(old_r).contains(p));
                        }
                    }
                    if target.contains(p) {
                        let j = choose|j: int| 0 <= j < i + 1 && self.file_statuses@[j].0@ == p && self.file_statuses@[j].1 == status;
                        if j < i {
                            assert(str_set(old_r).contains(p));
                            let k = choose|k: int| 0 <= k < old_r.len() && old_r[k]@ == p;
                            assert(r@[k] == old_r[k]);
                        } else {
                            assert(r@[r@.len() - 1]@ == p);
                        }
                    }
                }
                assert(str_set(r@) =~= target);
            }
            i = i + 1;
        }
        proof {
            assert(self.file_statuses@.take(self.file_statuses@.len() as int) =~= self.file_statuses@);
            let target = Set::new(|p: Seq<char>| self.statuses().dom().contains(p) && self.statuses()[p] == status);
            assert forall|p: Seq<char>| str_set(r@).contains(p) <==> target.contains(p) by {
                if target.contains(p) {
                    let j = choose|j: int| 0 <= j < self.file_statuses@.len() && self.file_statuses@[j].0@ == p;
                }
            }
            assert(str_set(r@) =~= target);
        }
        r
    }

    /// Check if a directory contains any changed files.
    pub fn dir_has_changes(&self, path: &str) -> (r: bool)
        ensures
            r == changed_dirs_of(self.statuses()).contains(path@),
    {
        proof {
            use_type_invariant(self);
        }
        let mut i: usize = 0;
        while i < self.changed_dirs.len()
            invariant
                self.wf(),
                i <= self.changed_dirs@.len(),
                forall|j: int| 0 <= j < i ==> self.changed_dirs@[j]@ != path@,
            decreases self.changed_dirs.len() - i,
        {
            if str_eq(self.changed_dirs[i].as_str(), path) {
                assert(self.dirs().contains(path@));
                return true;
            }
            i = i + 1;
        }
        assert(!self.dirs().contains(path@));
        false
    }
}

/// Insert or replace the status of `path`.
fn insert_status(v: &mut Vec<(String, FileStatus)>, path: String, fs: FileStatus)
    requires
        distinct_keys(old(v)@),
    ensures
        distinct_keys(final(v)@),
        status_map(final(v)@) == status_map(old(v)@).insert(path@, fs),
{
    proof {
        lemma_status_map_distinct(old(v)@);
    }
    let mut i: usize = 0;
    while i < v.len()
        invariant
            distinct_keys(old(v)@),
            v@ == old(v)@,
            i <= v@.len(),
            forall|j: int| 0 <= j < i ==> v@[j].0@ != path@,
        decreases v.len() - i,
    {
        if str_eq(v[i].0.as_str(), path.as_str()) {
            let ghost ov = v@;
            let (p, _) = v.remove(i);
            v.insert(i, (p, fs));
            proof {
                lemma_status_map_distinct(ov);
                assert(v@ =~= ov.update(i as int, (ov[i as int].0, fs)));
                assert forall|a: int, b: int| 0 <= a < b < v@.len() implies v@[a].0@ != v@[b].0@ by {
                    assert(v@[a].0 == ov[a].0 && v@[b].0 == ov[b].0);
                }
                lemma_status_map_distinct(v@);
                let m1 = status_map(v@);
                let m2 = status_map(ov).insert(path@, fs);
                assert forall|k: Seq<char>| m1.dom().contains(k) <==> m2.dom().contains(k) by {
                    if m1.dom().contains(k) {
                        let j = choose|j: int| 0 <= j < v@.len() && v@[j].0@ == k;
                        assert(v@[j].0 == ov[j].0);
                    }
                    if m2.dom().contains(k) && k != path@ {
                        let j = choose|j: int| 0 <= j < ov.len() && ov[j].0@ == k;
                        assert(v@[j].0 == ov[j].0);
                    }
                    if k == path@ {
                        assert(v@[i as int].0 == ov[i as int].0);
                        assert(v@[i as int].0@ == k);
                    }
                }
                assert forall|k: Seq<char>| m1.dom().contains(k) implies m1[k] == m2[k] by {
                    let j = choose|j: int| 0 <= j < v@.len() && v@[j].0@ == k;
                    assert(v@[j].0 == ov[j].0);
                }
                assert(m1 =~= m2);
            }
            return;
        }
        i = i + 1;
    }
    v.push((path, fs));
    proof {
        assert(v@.drop_last() =~= old(v)@);
    }
}

/// Whether the string list contains `s`.
pub fn contains_str(v: &Vec<String>, s: &str) -> (r: bool)
    ensures
        r == exists|i: int| 0 <= i < v@.len() && v@[i]@ == s@,
{
    let mut i: usize = 0;
    while i < v.len()
        invariant
            i <= v@.len(),
            forall|j: int| 0 <= j < i ==> v@[j]@ != s@,
        decreases v.len() - i,
    {
        if str_eq(v[i].as_str(), s) {
            return true;
        }
        i = i + 1;
    }
    false
}

/// The set of strings in a list.
pub open spec fn str_set(v: Seq<String>) -> Set<Seq<char>> {
    Set::new(|d: Seq<char>| exists|i: int| 0 <= i < v.len() && v[i]@ == d)
}

/// A set of directories that holds the ancestors of each of its members.
pub open spec fn ancestor_closed(s: Set<Seq<char>>) -> bool {
    forall|d: Seq<char>| s.contains(d) ==> ancestors(d).subset_of(s)
}

proof fn lemma_ancestors_of_parent(p: Seq<char>, q: Seq<char>)
    requires
        parent_of(p) == Some(q),
    ensures
        ancestors(p) == ancestors(q).insert(q),
{
    lemma_parent_shorter(p);
}

proof fn lemma_ancestors_shorter(p: Seq<char>)
    ensures
        forall|x: Seq<char>| #[trigger] ancestors(p).contains(x) ==> x.len() < p.len(),
    decreases p.len(),
{
    lemma_parent_shorter(p);
    match parent_of(p) {
        Some(q) => {
            lemma_ancestors_shorter(q);
            assert(ancestors(p) == ancestors(q).insert(q));
        },
        None => {
            assert(ancestors(p) =~= Set::<Seq<char>>::empty());
        },
    }
}

proof fn lemma_ancestors_transitive(p: Seq<char>)
    ensures
        forall|d: Seq<char>| #[trigger] ancestors(p).contains(d) ==> ancestors(d).subset_of(ancestors(p)),
    decreases p.len(),
{
    lemma_parent_shorter(p);
    match parent_of(p) {
        Some(q) => {
            lemma_ancestors_transitive(q);
            assert(ancestors(p) == ancestors(q).insert(q));
            assert forall|d: Seq<char>| #[trigger] ancestors(p).contains(d) implies ancestors(d).subset_of(ancestors(p)) by {
                if d != q {
                    assert(ancestors(q).contains(d));
                }
            }
        },
        None => {
            assert(ancestors(p) =~= Set::<Seq<char>>::empty());
        },
    }
}

/// Propagate file statuses up to ancestor directories.
fn propagate_to_dirs(file_statuses: &Vec<(String, FileStatus)>) -> (r: Vec<String>)
    requires
        distinct_keys(file_statuses@),
    ensures
        distinct_strs(r@),
        str_set(r@) == changed_dirs_of(status_map(file_statuses@)),
{
    let mut dirs: Vec<String> = Vec::new();
    let mut i: usize = 0;
    proof {
        assert(str_set(dirs@) =~= Set::new(|d: Seq<char>| exists|j: int| 0 <= j < 0 && #[trigger] ancestors(file_statuses@[j].0@).contains(d)));
    }
    while i < file_statuses.len()
        invariant
            i <= file_statuses@.len(),
            distinct_strs(dirs@),
            ancestor_closed(str_set(dirs@)),
            str_set(dirs@) == Set::new(|d: Seq<char>| exists|j: int| 0 <= j < i && #[trigger] ancestors(file_statuses@[j].0@).contains(d)),
        decreases file_statuses.len() - i,
    {
        let ghost base = str_set(dirs@);
        let ghost f = file_statuses@[i as int].0@;
        let mut cur = parent_path(file_statuses[i].0.as_str());
        proof {
            lemma_parent_shorter(f);
            lemma_ancestors_transitive(f);
            lemma_ancestors_shorter(f);
        }
        let ghost mut added: Set<Seq<char>> = Set::empty();
        loop
            invariant_except_break
                distinct_strs(dirs@),
                str_set(dirs@) == base.union(added),
                ancestor_closed(base),
                added.subset_of(ancestors(f)),
                match cur {
                    Some(c) => ancestors(f) == added.union(ancestors(c@).insert(c@)) && forall|d: Seq<char>| #[trigger] added.contains(d) ==> d.len() > c@.len(),
                    None => ancestors(f) == added,
                },
            ensures
                distinct_strs(dirs@),
                str_set(dirs@) == base.union(ancestors(f)),
            decreases (match cur { Some(c) => c@.len() + 1, None => 0 }),
        {
            match cur {
                None => {
                    proof {
                        assert(str_set(dirs@) =~= base.union(ancestors(f)));
                    }
                    break;
                },
                Some(p) => {
                    if contains_str(&dirs, p.as_str()) {
                        proof {
                            assert(str_set(dirs@).contains(p@));
                            if added.contains(p@) {
                                assert(false);
                            }
                            assert(base.contains(p@));
                            assert(ancestors(p@).subset_of(base));
                            assert(str_set(dirs@) =~= base.union(ancestors(f)));
                        }
                        break;
                    }
                    let next = parent_path(p.as_str());
                    proof {
                        lemma_parent_shorter(p@);
                        lemma_ancestors_shorter(p@);
                    }
                    let ghost old_dirs = dirs@;
                    dirs.push(p);
                    proof {
                        let pv = dirs@[dirs@.len() - 1]@;
                        assert forall|a: int, b: int| 0 <= a < b < dirs@.len() implies dirs@[a]@ != dirs@[b]@ by {
                            assert(dirs@[a] == old_dirs[a] || a == dirs@.len() - 1);
                            if b == dirs@.len() - 1 {
                                assert(dirs@[a] == old_dirs[a]);
                                assert(str_set(old_dirs).contains(old_dirs[a]@));
                            } else {
                                assert(dirs@[b] == old_dirs[b]);
                            }
                        }
                        added = added.insert(pv);
                        assert forall|d: Seq<char>| str_set(dirs@).contains(d) <==> base.union(added).contains(d) by {
                            if str_set(dirs@).contains(d) {
                                let k = choose|k: int| 0 <= k < dirs@.len() && dirs@[k]@ == d;
                                if k < old_dirs.len() {
                                    assert(dirs@[k] == old_dirs[k]);
                                    assert(str_set(old_dirs).contains(d));
                                }
                            }
                            if base.union(added).contains(d) {
                                if d == pv {
                                } else {
                                    assert(str_set(old_dirs).contains(d));
                                    let k = choose|k: int| 0 <= k < old_dirs.len() && old_dirs[k]@ == d;
                                    assert(dirs@[k] == old_dirs[k]);
                                }
                            }
                        }
                        assert(str_set(dirs@) =~= base.union(added));
                        match &next {
                            Some(q) => {
                                lemma_ancestors_of_parent(pv, q@);
                                assert(ancestors(f) =~= added.union(ancestors(q@).insert(q@)));
                            },
                            None => {
                                assert(ancestors(pv) =~= Set::<Seq<char>>::empty());
                                assert(ancestors(f) =~= added);
                            },
                        }
                    }
                    cur = next;
                },
            }
        }
        proof {
            let target = Set::new(|d: Seq<char>| exists|j: int| 0 <= j < i + 1 && #[trigger] ancestors(file_statuses@[j].0@).contains(d));
            assert forall|d: Seq<char>| str_set(dirs@).contains(d) <==> target.contains(d) by {
                if ancestors(f).contains(d) {
                    assert(ancestors(file_statuses@[i as int].0@).contains(d));
                }
                if target.contains(d) {
                    let j = choose|j: int| 0 <= j < i + 1 && #[trigger] ancestors(file_statuses@[j].0@).contains(d);
                    if j < i {
                        assert(base.contains(d));
                    }
                }
            }
            assert(str_set(dirs@) =~= target);
            assert forall|d: Seq<char>| str_set(dirs@).contains(d) implies ancestors(d).subset_of(str_set(dirs@)) by {
                if base.contains(d) {
                } else {
                    assert(ancestors(f).contains(d));
                }
            }
        }
        i = i + 1;
    }
    proof {
        lemma_status_map_distinct(file_statuses@);
        let m = status_map(file_statuses@);
        assert forall|d: Seq<char>| str_set(dirs@).contains(d) <==> changed_dirs_of(m).contains(d) by {
            if str_set(dirs@).contains(d) {
                let j = choose|j: int| 0 <= j < file_statuses@.len() && #[trigger] ancestors(file_statuses@[j].0@).contains(d);
                assert(m.dom().contains(file_statuses@[j].0@));
            }
            if changed_dirs_of(m).contains(d) {
                let f = choose|f: Seq<char>| m.dom().contains(f) && #[trigger] ancestors(f).contains(d);
                let j = choose|j: int| 0 <= j < file_statuses@.len() && file_statuses@[j].0@ == f;
            }
        }
        assert(str_set(dirs@) =~= changed_dirs_of(m));
    }
    dirs
}

} // verus!
