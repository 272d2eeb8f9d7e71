//! Relative paths inside a plan repo and the in-memory store that holds the
//! repo's files by path.
//!
//! Markdown documents are held as their parsed value (frontmatter plus body);
//! every other file is held as text.
use vstd::prelude::*;

use crate::error::{Error, Result};
use crate::model::{
    Document, DocView, Phase, PhaseView, Project, ProjectView, Plan, PlanView, Review, ReviewView, Roadmap, Run, RunView,
    RoadmapView, Task, TaskView,
};
use crate::text::{cat, cat3, is_prefix, owned, split_once, split_once_char, starts_with, str_eq};

verus! {

/// Whether a `..` segment starts at index `i` of `s`.
pub open spec fn parent_segment_at(s: Seq<char>, i: int) -> bool {
    0 <= i && i + 2 <= s.len() && s[i] == '.' && s[i + 1] == '.' && (i == 0 || s[i - 1] == '/')
        && (i + 2 == s.len() || s[i + 2] == '/')
}

/// Whether `s` has a segment equal to `..` (segments are separated by `/`).
pub open spec fn has_parent_segment(s: Seq<char>) -> bool {
    exists|i: int| parent_segment_at(s, i)
}

/// A path is a valid relative repo path when it is non-empty, does not start
/// with `/` and never climbs out with a `..` segment.
pub open spec fn valid_rel_path(s: Seq<char>) -> bool {
    s.len() > 0 && s[0] != '/' && !has_parent_segment(s)
}

/// A path relative to the root of a plan repo, with `/` as separator.
#[derive(Clone, Debug, PartialEq, Eq)]
pub struct RelPath {
    path: String,
}

impl View for RelPath {
    type V = Seq<char>;

    closed spec fn view(&self) -> Seq<char> {
        self.path@
    }
}

fn check_rel_path(s: &str) -> (r: bool)
    ensures
        r == valid_rel_path(s@),
{
    let n = s.unicode_len();
    if n == 0 || s.get_char(0) == '/' {
        return false;
    }
    let mut i: usize = 0;
    while n >= 2 && i <= n - 2
        invariant
            n == s@.len(),
            n > 0,
            forall|j: int| 0 <= j < i ==> !parent_segment_at(s@, j),
        decreases n - i,
    {
        if s.get_char(i) == '.' && s.get_char(i + 1) == '.' && (i == 0 || s.get_char(i - 1)
            == '/') && (i + 2 == n || s.get_char(i + 2) == '/') {
            assert(parent_segment_at(s@, i as int));
            return false;
        }
        i = i + 1;
    }
    assert forall|j: int| !parent_segment_at(s@, j) by {
        if 0 <= j && j < i {
        }
    }
    true
}

impl RelPath {
    /// Validates and wraps `s`; see [`valid_rel_path`].
    pub fn new(s: &str) -> (r: Result<RelPath>)
        ensures
            r is Ok <==> valid_rel_path(s@),
            r matches Ok(p) ==> p@ == s@,
            r matches Err(e) ==> e matches Error::InvalidPath(m) && m@ == s@,
    {
        if check_rel_path(s) {
            Ok(RelPath { path: owned(s) })
        } else {
            Err(Error::InvalidPath(owned(s)))
        }
    }

    /// Wraps a path built by this library from its own layout.
    pub(crate) fn from_string(s: String) -> (r: RelPath)
        ensures
            r@ == s@,
    {
        RelPath { path: s }
    }

    /// The path as text.
    pub fn as_str(&self) -> (r: &str)
        ensures
            r@ == self@,
    {
        self.path.as_str()
    }

    /// The child `name` of this path.
    pub fn join(&self, name: &str) -> (r: Result<RelPath>)
        ensures
            r is Ok <==> valid_rel_path(self@ + seq!['/'] + name@),
            r matches Ok(p) ==> p@ == self@ + seq!['/'] + name@,
    {
        let s = cat3(self.path.as_str(), "/", name);
        proof {
            reveal_strlit("/");
            assert("/"@ =~= seq!['/']);
        }
        if check_rel_path(s.as_str()) {
            Ok(RelPath { path: s })
        } else {
            Err(Error::InvalidPath(s))
        }
    }
}

/// What a directory listing reports a child to be.
#[derive(Clone, Copy, Debug, PartialEq, Eq, Structural)]
pub enum DirEntryKind {
    File,
    Dir,
}

/// One child of a listed directory.
#[derive(Clone, Debug, PartialEq, Eq)]
pub struct DirEntry {
    pub name: String,
    pub kind: DirEntryKind,
}

/// A file held by the store.
#[derive(Clone, Debug, PartialEq, Eq)]
pub enum Entry {
    Project(Document<Project>),
    Roadmap(Document<Roadmap>),
    Phase(Document<Phase>),
    Task(Document<Task>),
    Review(Document<Review>),
    Run(Document<Run>),
    Plan(Document<Plan>),
    Text(String),
}

/// Spec view of a stored file.
pub enum EntryView {
    Project(DocView<ProjectView>),
    Roadmap(DocView<RoadmapView>),
    Phase(DocView<PhaseView>),
    Task(DocView<TaskView>),
    Review(DocView<ReviewView>),
    Run(DocView<RunView>),
    Plan(DocView<PlanView>),
    Text(Seq<char>),
}

impl View for Entry {
    type V = EntryView;

    open spec fn view(&self) -> EntryView {
        match self {
            Entry::Project(d) => EntryView::Project(d@),
            Entry::Roadmap(d) => EntryView::Roadmap(d@),
            Entry::Phase(d) => EntryView::Phase(d@),
            Entry::Task(d) => EntryView::Task(d@),
            Entry::Review(d) => EntryView::Review(d@),
            Entry::Run(d) => EntryView::Run(d@),
            Entry::Plan(d) => EntryView::Plan(d@),
            Entry::Text(t) => EntryView::Text(t@),
        }
    }
}


impl Entry {
    /// An exact copy.
    pub fn duplicate(&self) -> (r: Entry)
        ensures
            r@ == self@,
    {
        match self {
            Entry::Project(d) => Entry::Project(d.duplicate()),
            Entry::Roadmap(d) => Entry::Roadmap(d.duplicate()),
            Entry::Phase(d) => Entry::Phase(d.duplicate()),
            Entry::Task(d) => Entry::Task(d.duplicate()),
            Entry::Review(d) => Entry::Review(d.duplicate()),
            Entry::Run(d) => Entry::Run(d.duplicate()),
            Entry::Plan(d) => Entry::Plan(d.duplicate()),
            Entry::Text(t) => Entry::Text(t.clone()),
        }
    }
}

/// The files of `m` that do not lie under the directory prefix `pre`.
pub open spec fn without_under(m: Files, pre: Seq<char>) -> Files {
    m.restrict(Set::new(|k: Seq<char>| !is_prefix(pre, k)))
}

/// The files of `m` with every file under `src` also written under `dst`.
pub open spec fn copied_under(m: Files, src: Seq<char>, dst: Seq<char>) -> Files {
    Map::new(
        |k: Seq<char>|
            m.contains_key(k) || (is_prefix(dst, k) && m.contains_key(
                src + k.subrange(dst.len() as int, k.len() as int),
            )),
        |k: Seq<char>|
            if is_prefix(dst, k) && m.contains_key(src + k.subrange(dst.len() as int, k.len() as int)) {
                m[src + k.subrange(dst.len() as int, k.len() as int)]
            } else {
                m[k]
            },
    )
}

/// `m` with each of `keys` written from its source under `src`.
pub open spec fn apply_copies(m: Files, keys: Seq<Seq<char>>, src: Seq<char>, dst: Seq<char>) -> Files
    decreases keys.len(),
{
    if keys.len() == 0 {
        m
    } else {
        let k = keys.last();
        apply_copies(m, keys.drop_last(), src, dst).insert(
            k,
            m[src + k.subrange(dst.len() as int, k.len() as int)],
        )
    }
}

proof fn lemma_apply_copies(m: Files, keys: Seq<Seq<char>>, src: Seq<char>, dst: Seq<char>)
    ensures
        forall|k: Seq<char>| #[trigger] apply_copies(m, keys, src, dst).contains_key(k) <==> (m.contains_key(k) || keys.contains(k)),
        forall|k: Seq<char>| #[trigger] apply_copies(m, keys, src, dst).contains_key(k) ==> apply_copies(m, keys, src, dst)[k] == if keys.contains(k) {
            m[src + k.subrange(dst.len() as int, k.len() as int)]
        } else {
            m[k]
        },
    decreases keys.len(),
{
    if keys.len() > 0 {
        let ks = keys.drop_last();
        lemma_apply_copies(m, ks, src, dst);
        let kl = keys.last();
        assert(apply_copies(m, keys, src, dst) == apply_copies(m, ks, src, dst).insert(
            kl,
            m[src + kl.subrange(dst.len() as int, kl.len() as int)],
        ));
        assert forall|k: Seq<char>| keys.contains(k) <==> (ks.contains(k) || k == keys.last()) by {
            if keys.contains(k) && k != keys.last() {
                let b = choose|b: int| 0 <= b < keys.len() && keys[b] == k;
                assert(ks[b] == k);
            }
            if ks.contains(k) {
                let b = choose|b: int| 0 <= b < ks.len() && ks[b] == k;
                assert(keys[b] == k);
            }
            if k == keys.last() {
                assert(keys[keys.len() - 1] == k);
            }
        }
        assert forall|k: Seq<char>| #[trigger] apply_copies(m, keys, src, dst).contains_key(k) <==> (m.contains_key(k) || keys.contains(k)) by {
            assert(apply_copies(m, ks, src, dst).contains_key(k) <==> (m.contains_key(k) || ks.contains(k)));
        }
        assert forall|k: Seq<char>| #[trigger] apply_copies(m, keys, src, dst).contains_key(k) implies apply_copies(m, keys, src, dst)[k] == if keys.contains(k) {
            m[src + k.subrange(dst.len() as int, k.len() as int)]
        } else {
            m[k]
        } by {
            if k != kl {
                assert(apply_copies(m, ks, src, dst).contains_key(k));
            }
        }
    }
}

/// The contents of a store: file path to file.
pub type Files = Map<Seq<char>, EntryView>;

/// The child of `dir` that `key` lies under, with its kind: the first segment
/// of `key` after `dir/`, a directory when more segments follow.
pub open spec fn child_of(dir: Seq<char>, key: Seq<char>) -> Option<(Seq<char>, DirEntryKind)> {
    let pre = dir + seq!['/'];
    if is_prefix(pre, key) {
        let rest = key.subrange(pre.len() as int, key.len() as int);
        match split_once(rest, '/') {
            Some((a, _)) => Some((a, DirEntryKind::Dir)),
            None => Some((rest, DirEntryKind::File)),
        }
    } else {
        None
    }
}

/// Whether a listing of `dir` in `m` reports `name` with `kind`.
pub open spec fn listed(m: Files, dir: Seq<char>, name: Seq<char>, kind: DirEntryKind) -> bool {
    exists|k: Seq<char>| m.contains_key(k) && child_of(dir, k) == Some((name, kind))
}

/// An in-memory plan repo store: every file by its path.
pub struct MemoryStore {
    entries: Vec<(String, Entry)>,
    contents: Ghost<Files>,
}

impl MemoryStore {
    #[verifier::type_invariant]
    closed spec fn wf(self) -> bool {
        &&& forall|i: int, j: int|
            0 <= i < j < self.entries.len() ==> self.entries[i].0@ != self.entries[j].0@
        &&& forall|i: int|
            0 <= i < self.entries.len() ==> self.contents@.contains_key(self.entries[i].0@)
                && self.contents@[self.entries[i].0@] == self.entries[i].1@
        &&& forall|k: Seq<char>|
            self.contents@.contains_key(k) ==> exists|i: int|
                0 <= i < self.entries.len() && self.entries[i].0@ == k
    }

    /// The files in the store, by path.
    pub closed spec fn files(self) -> Files {
        self.contents@
    }

    /// An empty store.
    pub fn new() -> (r: MemoryStore)
        ensures
            r.files() == Map::<Seq<char>, EntryView>::empty(),
    {
        MemoryStore { entries: Vec::new(), contents: Ghost(Map::empty()) }
    }

    fn find(&self, key: &str) -> (r: Option<usize>)
        ensures
            r matches Some(i) ==> i < self.entries.len() && self.entries[i as int].0@ == key@
                && self.files().contains_key(key@) && self.files()[key@]
                == self.entries[i as int].1@,
            r is None <==> !self.files().contains_key(key@),
    {
        proof {
            use_type_invariant(self);
        }
        let mut i: usize = 0;
        while i < self.entries.len()
            invariant
                self.wf(),
                i <= self.entries.len(),
                forall|j: int| 0 <= j < i ==> self.entries[j].0@ != key@,
            decreases self.entries.len() - i,
        {
            if str_eq(self.entries[i].0.as_str(), key) {
                return Some(i);
            }
            i = i + 1;
        }
        None
    }

    /// Whether a file exists at `path`.
    pub fn file_exists(&self, path: &RelPath) -> (r: bool)
        ensures
            r == self.files().contains_key(path@),
    {
        self.find(path.as_str()).is_some()
    }

    /// The file at `path`, if any.
    pub fn get(&self, path: &RelPath) -> (r: Option<&Entry>)
        ensures
            r is None <==> !self.files().contains_key(path@),
            r matches Some(e) ==> self.files()[path@] == e@,
    {
        match self.find(path.as_str()) {
            Some(i) => Some(&self.entries[i].1),
            None => None,
        }
    }

    /// Stores `entry` at `path`, replacing any file there.
    pub fn put(&mut self, path: &RelPath, entry: Entry)
        ensures
            final(self).files() == old(self).files().insert(path@, entry@),
    {
        proof {
            use_type_invariant(&*self);
        }
        let found = self.find(path.as_str());
        let mut tmp = MemoryStore::new();
        core::mem::swap(&mut tmp, self);
        let MemoryStore { mut entries, contents } = tmp;
        let ghost tmp_entries_view = entries@;
        let ghost old_map = contents@;
        let ghost new_map = old_map.insert(path@, entry@);
        match found {
            Some(i) => {
                let key = owned(path.as_str());
                entries.set(i, (key, entry));
            },
            None => {
                let key = owned(path.as_str());
                entries.push((key, entry));
            },
        }
        let ghost es = entries@;
        let ghost old_es = old(self).entries@;
        assert(old_es == tmp_entries_view);
        assert forall|a: int, b: int| 0 <= a < b < es.len() implies es[a].0@ != es[b].0@ by {
            match found {
                Some(i) => {
                    if a != i {
                        assert(es[a] == old_es[a]);
                    }
                    if b != i {
                        assert(es[b] == old_es[b]);
                    }
                },
                None => {
                    if b == es.len() - 1 {
                        assert(es[a] == old_es[a]);
                        assert(old_map.contains_key(old_es[a].0@));
                    } else {
                        assert(es[a] == old_es[a]);
                        assert(es[b] == old_es[b]);
                    }
                },
            }
        }
        assert forall|a: int| 0 <= a < es.len() implies new_map.contains_key(es[a].0@)
            && new_map[es[a].0@] == es[a].1@ by {
            match found {
                Some(i) => {
                    if a != i {
                        assert(es[a] == old_es[a]);
                        assert(old_es[a].0@ != old_es[i as int].0@);
                    }
                },
                None => {
                    if a < es.len() - 1 {
                        assert(es[a] == old_es[a]);
                        assert(old_map.contains_key(old_es[a].0@));
                    }
                },
            }
        }
        assert forall|k: Seq<char>| new_map.contains_key(k) implies exists|i: int|
            0 <= i < es.len() && es[i].0@ == k by {
            if k == path@ {
                match found {
                    Some(i) => assert(es[i as int].0@ == k),
                    None => assert(es[es.len() - 1].0@ == k),
                }
            } else {
                let j = choose|j: int| 0 <= j < old(self).entries.len() && old(self).entries[j].0@ == k;
                assert(es[j].0@ == k);
            }
        }
        assert(forall|a: int, b: int|
            0 <= a < b < entries.len() ==> entries[a].0@ != entries[b].0@);
        assert(forall|a: int|
            0 <= a < entries.len() ==> new_map.contains_key(entries[a].0@)
                && new_map[entries[a].0@] == entries[a].1@);
        assert(forall|k: Seq<char>|
            new_map.contains_key(k) ==> exists|a: int|
                0 <= a < entries.len() && entries[a].0@ == k);
        proof {
            let ghost st = MemoryStore { entries: entries, contents: Ghost(new_map) };
            assert(st.entries@ == entries@);
            assert(st.contents@ == new_map);
            assert(st.wf());
        }
        *self = MemoryStore { entries, contents: Ghost(new_map) };
    }

    /// Writes text at `path`, replacing any file there.
    pub fn write(&mut self, path: &RelPath, content: String) -> (r: Result<()>)
        ensures
            r is Ok,
            final(self).files() == old(self).files().insert(path@, EntryView::Text(content@)),
    {
        self.put(path, Entry::Text(content));
        Ok(())
    }

    /// Removes the file at `path`; fails when there is none.
    pub fn delete(&mut self, path: &RelPath) -> (r: Result<()>)
        ensures
            r is Ok <==> old(self).files().contains_key(path@),
            r is Ok ==> final(self).files() == old(self).files().remove(path@),
            r is Err ==> final(self).files() == old(self).files(),
            r matches Err(e) ==> e is Io,
    {
        proof {
            use_type_invariant(&*self);
        }
        match self.find(path.as_str()) {
            None => Err(Error::Io(cat("no such file: ", path.as_str()))),
            Some(i) => {
                let mut tmp = MemoryStore::new();
                core::mem::swap(&mut tmp, self);
                let MemoryStore { mut entries, contents } = tmp;
                let ghost old_es = entries@;
                let ghost new_map = contents@.remove(path@);
                entries.remove(i);
                let ghost es = entries@;
                assert forall|a: int, b: int| 0 <= a < b < es.len() implies es[a].0@ != es[b].0@ by {
                    let a0 = if a < i { a } else { a + 1 };
                    let b0 = if b < i { b } else { b + 1 };
                    assert(es[a] == old_es[a0]);
                    assert(es[b] == old_es[b0]);
                }
                assert forall|a: int| 0 <= a < es.len() implies new_map.contains_key(es[a].0@)
                    && new_map[es[a].0@] == es[a].1@ by {
                    if a < i {
                        assert(es[a] == old_es[a]);
                        assert(old_es[a].0@ != old_es[i as int].0@);
                    } else {
                        assert(es[a] == old_es[a + 1]);
                        assert(old_es[a + 1].0@ != old_es[i as int].0@);
                    }
                }
                assert forall|k: Seq<char>| new_map.contains_key(k) implies exists|a: int|
                    0 <= a < es.len() && es[a].0@ == k by {
                    let j = choose|j: int| 0 <= j < old_es.len() && old_es[j].0@ == k;
                    if j < i {
                        assert(es[j].0@ == k);
                    } else {
                        assert(es[j - 1].0@ == k);
                    }
                }
                assert(forall|a: int, b: int|
                    0 <= a < b < entries.len() ==> entries[a].0@ != entries[b].0@);
                assert(forall|a: int|
                    0 <= a < entries.len() ==> new_map.contains_key(entries[a].0@)
                        && new_map[entries[a].0@] == entries[a].1@);
                assert(forall|k: Seq<char>|
                    new_map.contains_key(k) ==> exists|a: int|
                        0 <= a < entries.len() && entries[a].0@ == k);
                proof {
                    let ghost st = MemoryStore { entries: entries, contents: Ghost(new_map) };
                    assert(st.entries@ == entries@);
                    assert(st.contents@ == new_map);
                    assert(st.wf());
                }
                *self = MemoryStore { entries, contents: Ghost(new_map) };
                Ok(())
            },
        }
    }

    /// The text of the file at `path`; fails when there is none or when it
    /// holds a structured document.
    pub fn read(&self, path: &RelPath) -> (r: Result<String>)
        ensures
            r is Ok <==> self.files().contains_key(path@) && self.files()[path@] is Text,
            r matches Ok(t) ==> self.files()[path@] == EntryView::Text(t@),
            r matches Err(e) ==> e is Io,
    {
        match self.get(path) {
            Some(Entry::Text(t)) => Ok(t.clone()),
            Some(_) => Err(Error::Io(cat("not a text file: ", path.as_str()))),
            None => Err(Error::Io(cat("no such file: ", path.as_str()))),
        }
    }


    /// Removes every file under the directory prefix `pre`.
    pub fn remove_under(&mut self, pre: &str)
        ensures
            final(self).files() == without_under(old(self).files(), pre@),
    {
        proof {
            use_type_invariant(&*self);
        }
        let mut tmp = MemoryStore::new();
        core::mem::swap(&mut tmp, self);
        let MemoryStore { entries, contents } = tmp;
        let ghost old_es = entries@;
        let ghost new_map = without_under(contents@, pre@);
        let mut kept: Vec<(String, Entry)> = Vec::new();
        let ghost mut idx: Seq<int> = Seq::empty();
        let mut entries = entries;
        let mut i: usize = 0;
        while i < entries.len()
            invariant
                i <= entries.len(),
                entries@ == old_es,
                new_map == without_under(contents@, pre@),
                forall|a: int, b: int| 0 <= a < b < old_es.len() ==> old_es[a].0@ != old_es[b].0@,
                forall|a: int| 0 <= a < old_es.len() ==> contents@.contains_key(old_es[a].0@)
                    && contents@[old_es[a].0@] == old_es[a].1@,
                idx.len() == kept.len(),
                forall|a: int| 0 <= a < kept.len() ==> 0 <= #[trigger] idx[a] < i && kept[a].0@ == old_es[idx[a]].0@ && kept[a].1@ == old_es[idx[a]].1@,
                forall|a: int, b: int| 0 <= a < b < kept.len() ==> idx[a] < idx[b],
                forall|j: int| 0 <= j < i && !is_prefix(pre@, old_es[j].0@) ==> exists|a: int| 0 <= a < kept.len() && #[trigger] idx[a] == j,
                forall|a: int| 0 <= a < kept.len() ==> !is_prefix(pre@, #[trigger] kept[a].0@),
            decreases entries.len() - i,
        {
            if !starts_with(entries[i].0.as_str(), pre) {
                let e = entries[i].1.duplicate();
                let k = entries[i].0.clone();
                let ghost i0 = idx;
                kept.push((k, e));
                proof {
                    idx = idx.push(i as int);
                    assert(idx[kept.len() - 1] == i);
                    assert forall|j: int| 0 <= j < i + 1 && !is_prefix(pre@, old_es[j].0@) implies exists|a: int| 0 <= a < kept.len() && #[trigger] idx[a] == j by {
                        if j < i {
                            let a = choose|a: int| 0 <= a < i0.len() && #[trigger] i0[a] == j;
                            assert(idx[a] == j);
                        } else {
                            assert(idx[kept.len() - 1] == j);
                        }
                    }
                }
            }
            i = i + 1;
        }
        proof {
            assert forall|a: int, b: int| 0 <= a < b < kept.len() implies kept[a].0@ != kept[b].0@ by {
                assert(idx[a] < idx[b]);
            }
            assert forall|a: int| 0 <= a < kept.len() implies new_map.contains_key(kept[a].0@)
                && new_map[kept[a].0@] == kept[a].1@ by {
                let j = idx[a];
                assert(contents@.contains_key(old_es[j].0@));
            }
            assert forall|k: Seq<char>| new_map.contains_key(k) implies exists|a: int|
                0 <= a < kept.len() && kept[a].0@ == k by {
                let j = choose|j: int| 0 <= j < old_es.len() && old_es[j].0@ == k;
                let a = choose|a: int| 0 <= a < kept.len() && #[trigger] idx[a] == j;
            }
            let st = MemoryStore { entries: kept, contents: Ghost(new_map) };
            assert(st.entries@ == kept@);
            assert(st.contents@ == new_map);
            assert(st.wf());
        }
        *self = MemoryStore { entries: kept, contents: Ghost(new_map) };
    }

    /// Writes a copy of every file under the directory prefix `src` under
    /// `dst` instead, keeping the originals.
    pub fn copy_under(&mut self, src: &str, dst: &str)
        ensures
            final(self).files() == copied_under(old(self).files(), src@, dst@),
    {
        proof {
            use_type_invariant(&*self);
        }
        let ghost m = self.files();
        let mut todo: Vec<(String, Entry)> = Vec::new();
        let mut i: usize = 0;
        while i < self.entries.len()
            invariant
                self.wf(),
                m == self.files(),
                i <= self.entries.len(),
                forall|a: int| 0 <= a < todo.len() ==> is_prefix(dst@, #[trigger] todo[a].0@)
                    && m.contains_key(src@ + todo[a].0@.subrange(dst@.len() as int, todo[a].0@.len() as int))
                    && todo[a].1@ == m[src@ + todo[a].0@.subrange(dst@.len() as int, todo[a].0@.len() as int)],
                forall|j: int| 0 <= j < i && is_prefix(src@, #[trigger] self.entries[j].0@) ==> exists|a: int| 0 <= a < todo.len() && todo[a].0@ == dst@ + self.entries[j].0@.subrange(src@.len() as int, self.entries[j].0@.len() as int),
            decreases self.entries.len() - i,
        {
            let key = self.entries[i].0.as_str();
            if starts_with(key, src) {
                let n = key.unicode_len();
                let rest = key.substring_char(src.unicode_len(), n);
                let nk = cat(dst, rest);
                let e = self.entries[i].1.duplicate();
                proof {
                    let k0 = self.entries[i as int].0@;
                    assert(nk@.subrange(dst@.len() as int, nk@.len() as int) =~= rest@);
                    assert(src@ + rest@ =~= k0);
                    assert(is_prefix(dst@, nk@)) by {
                        assert(nk@.subrange(0, dst@.len() as int) =~= dst@);
                    }
                }
                let ghost t0 = todo@;
                todo.push((nk, e));
                proof {
                    assert forall|j: int| 0 <= j < i + 1 && is_prefix(src@, #[trigger] self.entries[j].0@) implies exists|a: int| 0 <= a < todo.len() && todo[a].0@ == dst@ + self.entries[j].0@.subrange(src@.len() as int, self.entries[j].0@.len() as int) by {
                        if j < i {
                            let a = choose|a: int| 0 <= a < t0.len() && t0[a].0@ == dst@ + self.entries[j].0@.subrange(src@.len() as int, self.entries[j].0@.len() as int);
                            assert(todo[a] == t0[a]);
                        } else {
                            assert(todo[t0.len() as int].0@ == nk@);
                        }
                    }
                }
            }
            i = i + 1;
        }
        let ghost es = self.entries@;
        proof {
            assert forall|k: Seq<char>| m.contains_key(k) && is_prefix(src@, k) implies exists|a: int| 0 <= a < todo.len() && todo[a].0@ == dst@ + k.subrange(src@.len() as int, k.len() as int) by {
                let j = choose|j: int| 0 <= j < es.len() && es[j].0@ == k;
                assert(is_prefix(src@, self.entries[j].0@));
            }
        }
        let ghost keys = todo@.map_values(|t: (String, Entry)| t.0@);
        let mut a: usize = 0;
        assert(keys.subrange(0, 0) =~= Seq::<Seq<char>>::empty());
        while a < todo.len()
            invariant
                a <= todo.len(),
                keys == todo@.map_values(|t: (String, Entry)| t.0@),
                forall|b: int| 0 <= b < todo.len() ==> is_prefix(dst@, #[trigger] todo[b].0@)
                    && m.contains_key(src@ + todo[b].0@.subrange(dst@.len() as int, todo[b].0@.len() as int))
                    && todo[b].1@ == m[src@ + todo[b].0@.subrange(dst@.len() as int, todo[b].0@.len() as int)],
                self.files() == apply_copies(m, keys.subrange(0, a as int), src@, dst@),
            decreases todo.len() - a,
        {
            let p = RelPath::from_string(todo[a].0.clone());
            let e = todo[a].1.duplicate();
            self.put(&p, e);
            assert(keys.subrange(0, a + 1).drop_last() =~= keys.subrange(0, a as int));
            a = a + 1;
        }
        assert(keys.subrange(0, todo.len() as int) =~= keys);
        proof {
            lemma_apply_copies(m, keys, src@, dst@);
        }
        proof {
            let c = copied_under(m, src@, dst@);
            let f = self.files();
            assert forall|k: Seq<char>| #[trigger] f.contains_key(k) <==> c.contains_key(k) by {
                let rk = k.subrange(dst@.len() as int, k.len() as int);
                assert(c.contains_key(k) == (m.contains_key(k) || (is_prefix(dst@, k) && m.contains_key(src@ + rk))));
                if keys.contains(k) {
                    let b = choose|b: int| 0 <= b < keys.len() && keys[b] == k;
                    assert(todo[b].0@ == k);
                    assert(is_prefix(dst@, k) && m.contains_key(src@ + rk));
                }
                if is_prefix(dst@, k) && m.contains_key(src@ + rk) {
                    let sk = src@ + rk;
                    assert(is_prefix(src@, sk)) by {
                        assert(sk.subrange(0, src@.len() as int) =~= src@);
                    }
                    assert(sk.subrange(src@.len() as int, sk.len() as int) =~= rk);
                    assert(dst@ + rk =~= k) by {
                        assert(k =~= k.subrange(0, dst@.len() as int) + rk);
                    }
                    let b = choose|b: int| 0 <= b < todo.len() && todo[b].0@ == dst@ + sk.subrange(src@.len() as int, sk.len() as int);
                    assert(keys[b] == k);
                }
            }
            assert forall|k: Seq<char>| #[trigger] f.contains_key(k) implies f[k] == c[k] by {
                let rk = k.subrange(dst@.len() as int, k.len() as int);
                if keys.contains(k) {
                    let b = choose|b: int| 0 <= b < keys.len() && keys[b] == k;
                    assert(todo[b].0@ == k);
                    assert(is_prefix(dst@, k) && m.contains_key(src@ + rk));
                } else if is_prefix(dst@, k) && m.contains_key(src@ + rk) {
                    let sk = src@ + rk;
                    assert(is_prefix(src@, sk)) by {
                        assert(sk.subrange(0, src@.len() as int) =~= src@);
                    }
                    assert(sk.subrange(src@.len() as int, sk.len() as int) =~= rk);
                    assert(dst@ + rk =~= k) by {
                        assert(k =~= k.subrange(0, dst@.len() as int) + rk);
                    }
                    let b = choose|b: int| 0 <= b < todo.len() && todo[b].0@ == dst@ + sk.subrange(src@.len() as int, sk.len() as int);
                    assert(keys[b] == k);
                }
            }
            assert(f =~= c);
        }
    }

    /// An independent store with the same files.
    pub fn duplicate(&self) -> (r: MemoryStore)
        ensures
            r.files() == self.files(),
    {
        proof {
            use_type_invariant(self);
        }
        let mut copy: Vec<(String, Entry)> = Vec::new();
        let mut i: usize = 0;
        while i < self.entries.len()
            invariant
                self.wf(),
                i <= self.entries.len(),
                copy.len() == i,
                forall|a: int| 0 <= a < i ==> copy[a].0@ == self.entries[a].0@ && copy[a].1@ == self.entries[a].1@,
            decreases self.entries.len() - i,
        {
            let k = self.entries[i].0.clone();
            let e = self.entries[i].1.duplicate();
            copy.push((k, e));
            i = i + 1;
        }
        proof {
            let st = MemoryStore { entries: copy, contents: self.contents };
            assert forall|k: Seq<char>| st.contents@.contains_key(k) implies exists|a: int|
                0 <= a < st.entries.len() && st.entries[a].0@ == k by {
                let a = choose|a: int| 0 <= a < self.entries.len() && self.entries[a].0@ == k;
                assert(st.entries[a].0@ == k);
            }
            assert(st.wf());
        }
        MemoryStore { entries: copy, contents: Ghost(self.contents@) }
    }

    /// Nothing is staged in memory, so committing changes nothing.
    pub fn commit(&mut self) -> (r: Result<()>)
        ensures
            r is Ok,
            final(self).files() == old(self).files(),
    {
        Ok(())
    }

    /// The immediate children of `dir`, each once: files directly in it and
    /// directories that hold files.
    pub fn list(&self, dir: &RelPath) -> (r: Vec<DirEntry>)
        ensures
            forall|i: int|
                0 <= i < r.len() ==> listed(self.files(), dir@, #[trigger] r[i].name@, r[i].kind),
            forall|name: Seq<char>, kind: DirEntryKind|
                listed(self.files(), dir@, name, kind) ==> exists|i: int|
                    0 <= i < r.len() && r[i].name@ == name && r[i].kind == kind,
            forall|i: int, j: int|
                0 <= i < j < r.len() ==> !(r[i].name@ == r[j].name@ && r[i].kind == r[j].kind),
    {
        proof {
            use_type_invariant(self);
        }
        let pre = cat(dir.as_str(), "/");
        proof {
            reveal_strlit("/");
            assert("/"@ =~= seq!['/']);
        }
        let plen = pre.as_str().unicode_len();
        let mut out: Vec<DirEntry> = Vec::new();
        let mut i: usize = 0;
        while i < self.entries.len()
            invariant
                self.wf(),
                i <= self.entries.len(),
                pre@ == dir@ + seq!['/'],
                plen == pre@.len(),
                forall|a: int, b: int|
                    0 <= a < b < out.len() ==> !(out[a].name@ == out[b].name@ && out[a].kind
                        == out[b].kind),
                forall|a: int|
                    0 <= a < out.len() ==> listed(
                        self.files(),
                        dir@,
                        #[trigger] out[a].name@,
                        out[a].kind,
                    ),
                forall|j: int|
                    0 <= j < i ==> ((#[trigger] child_of(dir@, self.entries[j].0@)) matches Some(
                        (n, k),
                    ) ==> exists|a: int| 0 <= a < out.len() && out[a].name@ == n && out[a].kind == k),
            decreases self.entries.len() - i,
        {
            let key = self.entries[i].0.as_str();
            if starts_with(key, pre.as_str()) {
                let klen = key.unicode_len();
                let rest = key.substring_char(plen, klen);
                let (name, kind) = match split_once_char(rest, '/') {
                    Some((a, _)) => (a, DirEntryKind::Dir),
                    None => (rest, DirEntryKind::File),
                };
                let ghost k0 = self.entries[i as int].0@;
                assert(child_of(dir@, k0) == Some((name@, kind)));
                assert(self.files().contains_key(k0));
                let mut seen = false;
                let mut a: usize = 0;
                while a < out.len()
                    invariant
                        a <= out.len(),
                        !seen ==> forall|b: int|
                            0 <= b < a ==> !(out[b].name@ == name@ && out[b].kind == kind),
                        seen ==> exists|b: int|
                            0 <= b < out.len() && out[b].name@ == name@ && out[b].kind == kind,
                    decreases out.len() - a,
                {
                    if out[a].kind == kind && str_eq(out[a].name.as_str(), name) {
                        seen = true;
                    }
                    a = a + 1;
                }
                let ghost out0 = out@;
                if !seen {
                    out.push(DirEntry { name: owned(name), kind });
                    assert(out[out.len() - 1].name@ == name@);
                }
                assert forall|j: int| 0 <= j <= i implies ((#[trigger] child_of(dir@, self.entries[j].0@)) matches Some(
                        (n, k),
                    ) ==> exists|a: int| 0 <= a < out.len() && out[a].name@ == n && out[a].kind == k) by {
                    if j < i {
                        if let Some((n, k)) = child_of(dir@, self.entries[j].0@) {
                            let a = choose|a: int| 0 <= a < out0.len() && out0[a].name@ == n && out0[a].kind == k;
                            assert(out[a] == out0[a]);
                        }
                    } else if !seen {
                        assert(out[out.len() - 1].name@ == name@ && out[out.len() - 1].kind == kind);
                    }
                }
            } else {
                assert(child_of(dir@, self.entries[i as int].0@) is None);
            }
            i = i + 1;
        }
        proof {
            assert forall|name: Seq<char>, kind: DirEntryKind|
                listed(self.files(), dir@, name, kind) implies exists|a: int|
                0 <= a < out.len() && out[a].name@ == name && out[a].kind == kind by {
                let k = choose|k: Seq<char>|
                    self.files().contains_key(k) && child_of(dir@, k) == Some((name, kind));
                let j = choose|j: int| 0 <= j < self.entries.len() && self.entries[j].0@ == k;
                assert(child_of(dir@, self.entries[j].0@) == Some((name, kind)));
            }
        }
        out
    }
}

} // verus!
