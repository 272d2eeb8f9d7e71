//! Phase operations: list, create, update, estimate, remove, resolve.
use vstd::prelude::*;

use crate::error::{Error, Result};
use crate::io::{load_phase, load_phase_file, load_roadmap, phase_at, roadmap_at, write_phase, write_roadmap};
use crate::model::{
    phase_stem, phase_stem_spec, Date, DocView, Document, Phase, PhaseStatus, PhaseView,
    RoadmapView,
};
use crate::ops::update::{BodyUpdate, DifficultyUpdate, ModelTierUpdate, TagsUpdate};
use crate::paths::{
    archived_roadmap_dir, archived_roadmap_dir_spec, archived_roadmap_path,
    archived_roadmap_path_spec, phase_path, phase_path_spec, roadmap_dir, roadmap_dir_spec,
    roadmap_path, roadmap_path_spec,
};
use crate::store::{listed, DirEntryKind, EntryView, Files, MemoryStore, RelPath};
use crate::text::{cat3, ends_with, is_suffix, owned, parse_u32, parse_u32_str, str_eq};

verus! {

/// The markdown extension.
pub open spec fn md_ext() -> Seq<char> {
    seq!['.', 'm', 'd']
}

/// `name` with every trailing `.md` removed.
pub open spec fn md_trimmed(name: Seq<char>) -> Seq<char>
    decreases name.len(),
{
    if name.len() >= 3 && is_suffix(md_ext(), name) {
        md_trimmed(name.subrange(0, name.len() - 3))
    } else {
        name
    }
}

pub(crate) fn md_trim(name: &str) -> (r: &str)
    ensures
        r@ == md_trimmed(name@),
{
    let mut cur: &str = name;
    proof {
        reveal_strlit(".md");
        assert(".md"@ =~= md_ext());
    }
    while ends_with(cur, ".md")
        invariant
            md_trimmed(cur@) == md_trimmed(name@),
            ".md"@ == md_ext(),
        decreases cur@.len(),
    {
        let n = cur.unicode_len();
        cur = cur.substring_char(0, n - 3);
    }
    cur
}

/// Whether the file `name` in a roadmap's directory is one of its phases:
/// a markdown file other than `roadmap.md`.
pub open spec fn is_phase_file(m: Files, project: Seq<char>, roadmap: Seq<char>, name: Seq<char>) -> bool {
    listed(m, roadmap_dir_spec(project, roadmap), name, DirEntryKind::File) && name
        != "roadmap.md"@ && is_suffix(md_ext(), name)
}

/// The stem and document of the phase file `name`.
pub open spec fn phase_item(m: Files, project: Seq<char>, roadmap: Seq<char>, name: Seq<char>) -> (
    Seq<char>,
    DocView<PhaseView>,
) {
    (
        md_trimmed(name),
        phase_at(m, phase_path_spec(project, roadmap, md_trimmed(name))).unwrap(),
    )
}

/// Whether every phase file holds a phase document.
pub open spec fn all_phase_docs(
    m: Files,
    project: Seq<char>,
    roadmap: Seq<char>,
    names: Seq<Seq<char>>,
) -> bool {
    forall|i: int|
        0 <= i < names.len() ==> (#[trigger] phase_at(
            m,
            phase_path_spec(project, roadmap, md_trimmed(names[i])),
        )) is Some
}

/// Whether `names` lists the phase files of a roadmap, each once.
pub open spec fn phase_files(
    m: Files,
    project: Seq<char>,
    roadmap: Seq<char>,
    names: Seq<Seq<char>>,
) -> bool {
    names.no_duplicates() && forall|x: Seq<char>|
        names.contains(x) <==> is_phase_file(m, project, roadmap, x)
}

/// The stems and documents of a list of phases.
pub open spec fn phase_views(v: Seq<(String, Document<Phase>)>) -> Seq<(Seq<char>, DocView<PhaseView>)> {
    v.map_values(|x: (String, Document<Phase>)| (x.0@, x.1@))
}

/// Whether phases are in order of their numbers.
pub open spec fn by_number(v: Seq<(Seq<char>, DocView<PhaseView>)>) -> bool {
    forall|i: int, j: int|
        0 <= i < j < v.len() ==> (#[trigger] v[i]).1.frontmatter.phase <= (#[trigger] v[j]).1.frontmatter.phase
}

/// Whether every phase file of a roadmap holds a phase document.
pub open spec fn phases_ok(m: Files, project: Seq<char>, roadmap: Seq<char>) -> bool {
    forall|name: Seq<char>|
        is_phase_file(m, project, roadmap, name) ==> (#[trigger] phase_at(
            m,
            phase_path_spec(project, roadmap, md_trimmed(name)),
        )) is Some
}

/// Whether `x` is the stem and document of one of a roadmap's phase files.
pub open spec fn is_phase_item(
    m: Files,
    project: Seq<char>,
    roadmap: Seq<char>,
    x: (Seq<char>, DocView<PhaseView>),
) -> bool {
    exists|name: Seq<char>|
        is_phase_file(m, project, roadmap, name) && #[trigger] phase_item(m, project, roadmap, name)
            == x
}

/// What a listing of a roadmap's phases gives on a store: its phases ordered
/// by number, each with its stem, each phase file once.
pub open spec fn lists_phases(
    m: Files,
    project: Seq<char>,
    roadmap: Seq<char>,
    r: Result<Vec<(String, Document<Phase>)>>,
) -> bool {
    &&& !m.contains_key(roadmap_path_spec(project, roadmap)) ==> (r matches Err(
        Error::RoadmapNotFound(n),
    ) && n@ == roadmap)
    &&& m.contains_key(roadmap_path_spec(project, roadmap)) && !phases_ok(m, project, roadmap) ==> (
    r matches Err(e) && (e is Io || e is FrontmatterParse))
    &&& m.contains_key(roadmap_path_spec(project, roadmap)) && phases_ok(m, project, roadmap) ==> (
    r matches Ok(v) && by_number(phase_views(v@)) && exists|names: Seq<Seq<char>>|
        phase_files(m, project, roadmap, names) && phase_views(v@).to_multiset() == names.map_values(
            |n: Seq<char>| phase_item(m, project, roadmap, n),
        ).to_multiset())
}

/// The phases a listing returns are exactly the roadmap's phase items.
pub proof fn lemma_listed_phases(
    m: Files,
    project: Seq<char>,
    roadmap: Seq<char>,
    v: Seq<(Seq<char>, DocView<PhaseView>)>,
    names: Seq<Seq<char>>,
)
    requires
        phase_files(m, project, roadmap, names),
        v.to_multiset() == names.map_values(|n: Seq<char>| phase_item(m, project, roadmap, n)).to_multiset(),
    ensures
        forall|x: (Seq<char>, DocView<PhaseView>)| v.contains(x) <==> is_phase_item(m, project, roadmap, x),
{
    let f = |n: Seq<char>| phase_item(m, project, roadmap, n);
    let w = names.map_values(f);
    assert forall|x: (Seq<char>, DocView<PhaseView>)| v.contains(x) <==> is_phase_item(m, project, roadmap, x) by {
        vstd::seq_lib::to_multiset_contains(v, x);
        vstd::seq_lib::to_multiset_contains(w, x);
        if w.contains(x) {
            let k = choose|k: int| 0 <= k < w.len() && w[k] == x;
            assert(names.contains(names[k]));
            assert(phase_item(m, project, roadmap, names[k]) == x);
        }
        if is_phase_item(m, project, roadmap, x) {
            let name = choose|name: Seq<char>| is_phase_file(m, project, roadmap, name) && #[trigger] phase_item(m, project, roadmap, name) == x;
            assert(names.contains(name));
            let k = choose|k: int| 0 <= k < names.len() && names[k] == name;
            assert(w[k] == x);
        }
    }
}

fn insert_by_number(out: &mut Vec<(String, Document<Phase>)>, x: (String, Document<Phase>))
    requires
        by_number(phase_views(old(out)@)),
    ensures
        by_number(phase_views(final(out)@)),
        phase_views(final(out)@).to_multiset() == phase_views(old(out)@).to_multiset().insert(
            (x.0@, x.1@),
        ),
{
    let ghost o = phase_views(out@);
    let ghost xv = (x.0@, x.1@);
    let xn = x.1.frontmatter.phase;
    let mut p: usize = 0;
    let mut done = false;
    while p < out.len() && !done
        invariant
            p <= out.len(),
            o == phase_views(out@),
            xn == xv.1.frontmatter.phase,
            forall|k: int| 0 <= k < p ==> (#[trigger] o[k]).1.frontmatter.phase <= xn,
            done ==> p < out.len() && o[p as int].1.frontmatter.phase > xn,
        decreases out.len() - p, if done { 0int } else { 1int },
    {
        assert(o[p as int] == (out[p as int].0@, out[p as int].1@));
        if out[p].1.frontmatter.phase > xn {
            done = true;
        } else {
            p = p + 1;
        }
    }
    out.insert(p, x);
    let ghost n = phase_views(out@);
    assert(n =~= o.insert(p as int, xv));
    proof {
        vstd::seq_lib::to_multiset_insert(o, p as int, xv);
        assert forall|i: int, j: int| 0 <= i < j < n.len() implies (#[trigger] n[i]).1.frontmatter.phase <= (#[trigger] n[j]).1.frontmatter.phase by {
            if j < p {
                assert(n[i] == o[i] && n[j] == o[j]);
            } else if j == p {
                assert(n[i] == o[i]);
            } else if i == p {
                assert(n[j] == o[j - 1]);
                assert(o[p as int].1.frontmatter.phase <= o[j - 1].1.frontmatter.phase || j - 1 == p);
            } else if i < p {
                assert(n[i] == o[i] && n[j] == o[j - 1]);
            } else {
                assert(n[i] == o[i - 1] && n[j] == o[j - 1]);
            }
        }
    }
}

/// The phases of a roadmap ordered by their numbers, each with its file stem.
pub fn list_phases(store: &MemoryStore, project: &str, roadmap: &str) -> (r: Result<
    Vec<(String, Document<Phase>)>,
>)
    ensures
        lists_phases(store.files(), project@, roadmap@, r),
{
    if !store.file_exists(&roadmap_path(project, roadmap)) {
        return Err(Error::RoadmapNotFound(owned(roadmap)));
    }
    let dir = roadmap_dir(project, roadmap);
    let entries = store.list(&dir);
    let ghost m = store.files();
    let ghost item = |n: Seq<char>| phase_item(m, project@, roadmap@, n);
    let ghost mut names: Seq<Seq<char>> = Seq::empty();
    let mut out: Vec<(String, Document<Phase>)> = Vec::new();
    let mut i: usize = 0;
    proof {
        reveal_strlit("roadmap.md");
        reveal_strlit(".md");
        assert(".md"@ =~= md_ext());
    }
    assert(phase_views(out@) =~= names.map_values(item));
    while i < entries.len()
        invariant
            i <= entries.len(),
            m == store.files(),
            m.contains_key(roadmap_path_spec(project@, roadmap@)),
            item == (|n: Seq<char>| phase_item(m, project@, roadmap@, n)),
            ".md"@ == md_ext(),
            forall|a: int| 0 <= a < entries.len() ==> listed(m, roadmap_dir_spec(project@, roadmap@), #[trigger] entries[a].name@, entries[a].kind),
            forall|a: int, b: int| 0 <= a < b < entries.len() ==> !(entries[a].name@ == entries[b].name@ && entries[a].kind == entries[b].kind),
            forall|n: Seq<char>, k: DirEntryKind| listed(m, roadmap_dir_spec(project@, roadmap@), n, k) ==> exists|a: int| 0 <= a < entries.len() && entries[a].name@ == n && entries[a].kind == k,
            names.no_duplicates(),
            forall|k: int| 0 <= k < names.len() ==> is_phase_file(m, project@, roadmap@, #[trigger] names[k]),
            forall|k: int| 0 <= k < names.len() ==> exists|a: int| 0 <= a < i && entries[a].name@ == #[trigger] names[k] && entries[a].kind == DirEntryKind::File,
            forall|a: int| 0 <= a < i && is_phase_file(m, project@, roadmap@, #[trigger] entries[a].name@) && entries[a].kind == DirEntryKind::File ==> names.contains(entries[a].name@),
            all_phase_docs(m, project@, roadmap@, names),
            by_number(phase_views(out@)),
            phase_views(out@).to_multiset() == names.map_values(item).to_multiset(),
        decreases entries.len() - i,
    {
        let name = entries[i].name.as_str();
        if entries[i].kind == DirEntryKind::File && !str_eq(name, "roadmap.md") && ends_with(
            name,
            ".md",
        ) {
            let stem = md_trim(name);
            let ghost nm = entries[i as int].name@;
            assert(is_phase_file(m, project@, roadmap@, nm));
            proof {
                if names.contains(nm) {
                    let k = choose|k: int| 0 <= k < names.len() && names[k] == nm;
                    let a = choose|a: int| 0 <= a < i && entries[a].name@ == names[k] && entries[a].kind == DirEntryKind::File;
                    assert(false);
                }
            }
            match load_phase(store, project, roadmap, stem) {
                Ok(doc) => {
                    let ghost old_names = names;
                    let ghost ov = phase_views(out@);
                    proof {
                        names = names.push(nm);
                        assert(names.map_values(item) =~= old_names.map_values(item).push(item(nm)));
                        vstd::seq_lib::to_multiset_build(old_names.map_values(item), item(nm));
                        assert(item(nm) == (stem@, doc@));
                        assert forall|k: int| 0 <= k < names.len() implies (#[trigger] phase_at(m, phase_path_spec(project@, roadmap@, md_trimmed(names[k])))) is Some by {
                            if k < old_names.len() {
                                assert(names[k] == old_names[k]);
                            }
                        }
                        assert forall|a: int, b: int| 0 <= a < b < names.len() implies names[a] != names[b] by {
                            if b == names.len() - 1 {
                                assert(names[a] == old_names[a]);
                                assert(old_names.contains(old_names[a]));
                            } else {
                                assert(names[a] == old_names[a] && names[b] == old_names[b]);
                            }
                        }
                        assert forall|k: int| 0 <= k < names.len() implies exists|a: int| 0 <= a < i + 1 && entries[a].name@ == #[trigger] names[k] && entries[a].kind == DirEntryKind::File by {
                            if k < old_names.len() {
                                assert(names[k] == old_names[k]);
                            } else {
                                assert(entries[i as int].name@ == names[k]);
                            }
                        }
                        assert forall|a: int| 0 <= a < i + 1 && is_phase_file(m, project@, roadmap@, #[trigger] entries[a].name@) && entries[a].kind == DirEntryKind::File implies names.contains(entries[a].name@) by {
                            if a < i {
                                let k = choose|k: int| 0 <= k < old_names.len() && old_names[k] == entries[a].name@;
                                assert(names[k] == entries[a].name@);
                            } else {
                                assert(names[old_names.len() as int] == nm);
                            }
                        }
                    }
                    insert_by_number(&mut out, (owned(stem), doc));
                },
                Err(e) => {
                    assert(phase_at(m, phase_path_spec(project@, roadmap@, md_trimmed(nm))) is None);
                    return Err(e);
                },
            }
        } else {
            proof {
                if entries[i as int].kind == DirEntryKind::File {
                    assert(!is_phase_file(m, project@, roadmap@, entries[i as int].name@));
                }
            }
        }
        i = i + 1;
    }
    proof {
        assert forall|x: Seq<char>| names.contains(x) <==> is_phase_file(m, project@, roadmap@, x) by {
            if is_phase_file(m, project@, roadmap@, x) {
                let a = choose|a: int| 0 <= a < entries.len() && entries[a].name@ == x && entries[a].kind == DirEntryKind::File;
                assert(names.contains(entries[a].name@));
            }
            if names.contains(x) {
                let k = choose|k: int| 0 <= k < names.len() && names[k] == x;
                assert(is_phase_file(m, project@, roadmap@, names[k]));
            }
        }
        assert(phase_files(m, project@, roadmap@, names));
        assert forall|name: Seq<char>| is_phase_file(m, project@, roadmap@, name) implies (#[trigger] phase_at(
            m,
            phase_path_spec(project@, roadmap@, md_trimmed(name)),
        )) is Some by {
            assert(names.contains(name));
            let k = choose|k: int| 0 <= k < names.len() && names[k] == name;
            assert(phase_at(m, phase_path_spec(project@, roadmap@, md_trimmed(names[k]))) is Some);
        }
    }
    Ok(out)
}

/// Whether the file `name` in an archived roadmap's directory is one of
/// its phases: a markdown file other than `roadmap.md`.
pub open spec fn is_archived_phase_file(m: Files, project: Seq<char>, roadmap: Seq<char>, name: Seq<char>) -> bool {
    listed(m, archived_roadmap_dir_spec(project, roadmap), name, DirEntryKind::File) && name
        != "roadmap.md"@ && is_suffix(md_ext(), name)
}

/// The stem and document of the archived phase file `name`.
pub open spec fn archived_phase_item(m: Files, project: Seq<char>, roadmap: Seq<char>, name: Seq<char>) -> (
    Seq<char>,
    DocView<PhaseView>,
) {
    (
        md_trimmed(name),
        phase_at(m, archived_roadmap_dir_spec(project, roadmap) + "/"@ + name).unwrap(),
    )
}

/// Whether every archived phase file holds a phase document.
pub open spec fn all_archived_phase_docs(
    m: Files,
    project: Seq<char>,
    roadmap: Seq<char>,
    names: Seq<Seq<char>>,
) -> bool {
    forall|i: int|
        0 <= i < names.len() ==> (#[trigger] phase_at(
            m,
            archived_roadmap_dir_spec(project, roadmap) + "/"@ + names[i],
        )) is Some
}

/// Whether `names` lists the phase files of an archived roadmap, each once.
pub open spec fn archived_phase_files(
    m: Files,
    project: Seq<char>,
    roadmap: Seq<char>,
    names: Seq<Seq<char>>,
) -> bool {
    names.no_duplicates() && forall|x: Seq<char>|
        names.contains(x) <==> is_archived_phase_file(m, project, roadmap, x)
}

/// Whether every phase file of an archived roadmap holds a phase document.
pub open spec fn archived_phases_ok(m: Files, project: Seq<char>, roadmap: Seq<char>) -> bool {
    forall|name: Seq<char>|
        is_archived_phase_file(m, project, roadmap, name) ==> (#[trigger] phase_at(
            m,
            archived_roadmap_dir_spec(project, roadmap) + "/"@ + name,
        )) is Some
}

/// Whether `x` is the stem and document of one of an archived roadmap's
/// phase files.
pub open spec fn is_archived_phase_item(
    m: Files,
    project: Seq<char>,
    roadmap: Seq<char>,
    x: (Seq<char>, DocView<PhaseView>),
) -> bool {
    exists|name: Seq<char>|
        is_archived_phase_file(m, project, roadmap, name) && #[trigger] archived_phase_item(m, project, roadmap, name)
            == x
}

/// What a listing of an archived roadmap's phases gives on a store: its phases ordered
/// by number, each with its stem, each phase file once.
pub open spec fn lists_archived_phases(
    m: Files,
    project: Seq<char>,
    roadmap: Seq<char>,
    r: Result<Vec<(String, Document<Phase>)>>,
) -> bool {
    &&& !m.contains_key(archived_roadmap_path_spec(project, roadmap)) ==> (r matches Err(
        Error::RoadmapNotFound(n),
    ) && n@ == roadmap)
    &&& m.contains_key(archived_roadmap_path_spec(project, roadmap)) && !archived_phases_ok(m, project, roadmap) ==> (
    r matches Err(e) && (e is Io || e is FrontmatterParse))
    &&& m.contains_key(archived_roadmap_path_spec(project, roadmap)) && archived_phases_ok(m, project, roadmap) ==> (
    r matches Ok(v) && by_number(phase_views(v@)) && exists|names: Seq<Seq<char>>|
        archived_phase_files(m, project, roadmap, names) && phase_views(v@).to_multiset() == names.map_values(
            |n: Seq<char>| archived_phase_item(m, project, roadmap, n),
        ).to_multiset())
}

/// The phases an archive listing returns are exactly the archived roadmap's
/// phase items.
pub proof fn lemma_listed_archived_phases(
    m: Files,
    project: Seq<char>,
    roadmap: Seq<char>,
    v: Seq<(Seq<char>, DocView<PhaseView>)>,
    names: Seq<Seq<char>>,
)
    requires
        archived_phase_files(m, project, roadmap, names),
        v.to_multiset() == names.map_values(|n: Seq<char>| archived_phase_item(m, project, roadmap, n)).to_multiset(),
    ensures
        forall|x: (Seq<char>, DocView<PhaseView>)| v.contains(x) <==> is_archived_phase_item(m, project, roadmap, x),
{
    let f = |n: Seq<char>| archived_phase_item(m, project, roadmap, n);
    let w = names.map_values(f);
    assert forall|x: (Seq<char>, DocView<PhaseView>)| v.contains(x) <==> is_archived_phase_item(m, project, roadmap, x) by {
        vstd::seq_lib::to_multiset_contains(v, x);
        vstd::seq_lib::to_multiset_contains(w, x);
        if w.contains(x) {
            let k = choose|k: int| 0 <= k < w.len() && w[k] == x;
            assert(names.contains(names[k]));
            assert(archived_phase_item(m, project, roadmap, names[k]) == x);
        }
        if is_archived_phase_item(m, project, roadmap, x) {
            let name = choose|name: Seq<char>| is_archived_phase_file(m, project, roadmap, name) && #[trigger] archived_phase_item(m, project, roadmap, name) == x;
            assert(names.contains(name));
            let k = choose|k: int| 0 <= k < names.len() && names[k] == name;
            assert(w[k] == x);
        }
    }
}

/// The phases of an archived roadmap ordered by their numbers, each with
/// its file stem.
pub fn list_archived_phases(store: &MemoryStore, project: &str, roadmap: &str) -> (r: Result<
    Vec<(String, Document<Phase>)>,
>)
    ensures
        lists_archived_phases(store.files(), project@, roadmap@, r),
{
    if !store.file_exists(&archived_roadmap_path(project, roadmap)) {
        return Err(Error::RoadmapNotFound(owned(roadmap)));
    }
    let dir = archived_roadmap_dir(project, roadmap);
    let entries = store.list(&dir);
    let ghost m = store.files();
    let ghost item = |n: Seq<char>| archived_phase_item(m, project@, roadmap@, n);
    let ghost mut names: Seq<Seq<char>> = Seq::empty();
    let mut out: Vec<(String, Document<Phase>)> = Vec::new();
    let mut i: usize = 0;
    proof {
        reveal_strlit("roadmap.md");
        reveal_strlit(".md");
        assert(".md"@ =~= md_ext());
    }
    assert(phase_views(out@) =~= names.map_values(item));
    while i < entries.len()
        invariant
            i <= entries.len(),
            m == store.files(),
            m.contains_key(archived_roadmap_path_spec(project@, roadmap@)),
            dir@ == archived_roadmap_dir_spec(project@, roadmap@),
            item == (|n: Seq<char>| archived_phase_item(m, project@, roadmap@, n)),
            ".md"@ == md_ext(),
            forall|a: int| 0 <= a < entries.len() ==> listed(m, archived_roadmap_dir_spec(project@, roadmap@), #[trigger] entries[a].name@, entries[a].kind),
            forall|a: int, b: int| 0 <= a < b < entries.len() ==> !(entries[a].name@ == entries[b].name@ && entries[a].kind == entries[b].kind),
            forall|n: Seq<char>, k: DirEntryKind| listed(m, archived_roadmap_dir_spec(project@, roadmap@), n, k) ==> exists|a: int| 0 <= a < entries.len() && entries[a].name@ == n && entries[a].kind == k,
            names.no_duplicates(),
            forall|k: int| 0 <= k < names.len() ==> is_archived_phase_file(m, project@, roadmap@, #[trigger] names[k]),
            forall|k: int| 0 <= k < names.len() ==> exists|a: int| 0 <= a < i && entries[a].name@ == #[trigger] names[k] && entries[a].kind == DirEntryKind::File,
            forall|a: int| 0 <= a < i && is_archived_phase_file(m, project@, roadmap@, #[trigger] entries[a].name@) && entries[a].kind == DirEntryKind::File ==> names.contains(entries[a].name@),
            all_archived_phase_docs(m, project@, roadmap@, names),
            by_number(phase_views(out@)),
            phase_views(out@).to_multiset() == names.map_values(item).to_multiset(),
        decreases entries.len() - i,
    {
        let name = entries[i].name.as_str();
        if entries[i].kind == DirEntryKind::File && !str_eq(name, "roadmap.md") && ends_with(
            name,
            ".md",
        ) {
            let stem = md_trim(name);
            let ghost nm = entries[i as int].name@;
            assert(is_archived_phase_file(m, project@, roadmap@, nm));
            proof {
                if names.contains(nm) {
                    let k = choose|k: int| 0 <= k < names.len() && names[k] == nm;
                    let a = choose|a: int| 0 <= a < i && entries[a].name@ == names[k] && entries[a].kind == DirEntryKind::File;
                    assert(false);
                }
            }
            let path = RelPath::from_string(cat3(dir.as_str(), "/", name));
            proof {
                reveal_strlit("/");
            }
            match load_phase_file(store, &path) {
                Ok(doc) => {
                    let ghost old_names = names;
                    let ghost ov = phase_views(out@);
                    proof {
                        names = names.push(nm);
                        assert(names.map_values(item) =~= old_names.map_values(item).push(item(nm)));
                        vstd::seq_lib::to_multiset_build(old_names.map_values(item), item(nm));
                        assert(item(nm) == (stem@, doc@));
                        assert forall|k: int| 0 <= k < names.len() implies (#[trigger] phase_at(m, archived_roadmap_dir_spec(project@, roadmap@) + "/"@ + names[k])) is Some by {
                            if k < old_names.len() {
                                assert(names[k] == old_names[k]);
                            }
                        }
                        assert forall|a: int, b: int| 0 <= a < b < names.len() implies names[a] != names[b] by {
                            if b == names.len() - 1 {
                                assert(names[a] == old_names[a]);
                                assert(old_names.contains(old_names[a]));
                            } else {
                                assert(names[a] == old_names[a] && names[b] == old_names[b]);
                            }
                        }
                        assert forall|k: int| 0 <= k < names.len() implies exists|a: int| 0 <= a < i + 1 && entries[a].name@ == #[trigger] names[k] && entries[a].kind == DirEntryKind::File by {
                            if k < old_names.len() {
                                assert(names[k] == old_names[k]);
                            } else {
                                assert(entries[i as int].name@ == names[k]);
                            }
                        }
                        assert forall|a: int| 0 <= a < i + 1 && is_archived_phase_file(m, project@, roadmap@, #[trigger] entries[a].name@) && entries[a].kind == DirEntryKind::File implies names.contains(entries[a].name@) by {
                            if a < i {
                                let k = choose|k: int| 0 <= k < old_names.len() && old_names[k] == entries[a].name@;
                                assert(names[k] == entries[a].name@);
                            } else {
                                assert(names[old_names.len() as int] == nm);
                            }
                        }
                    }
                    insert_by_number(&mut out, (owned(stem), doc));
                },
                Err(e) => {
                    assert(phase_at(m, archived_roadmap_dir_spec(project@, roadmap@) + "/"@ + nm) is None);
                    return Err(e);
                },
            }
        } else {
            proof {
                if entries[i as int].kind == DirEntryKind::File {
                    assert(!is_archived_phase_file(m, project@, roadmap@, entries[i as int].name@));
                }
            }
        }
        i = i + 1;
    }
    proof {
        assert forall|x: Seq<char>| names.contains(x) <==> is_archived_phase_file(m, project@, roadmap@, x) by {
            if is_archived_phase_file(m, project@, roadmap@, x) {
                let a = choose|a: int| 0 <= a < entries.len() && entries[a].name@ == x && entries[a].kind == DirEntryKind::File;
                assert(names.contains(entries[a].name@));
            }
            if names.contains(x) {
                let k = choose|k: int| 0 <= k < names.len() && names[k] == x;
                assert(is_archived_phase_file(m, project@, roadmap@, names[k]));
            }
        }
        assert(archived_phase_files(m, project@, roadmap@, names));
        assert forall|name: Seq<char>| is_archived_phase_file(m, project@, roadmap@, name) implies (#[trigger] phase_at(
            m,
            archived_roadmap_dir_spec(project@, roadmap@) + "/"@ + name,
        )) is Some by {
            assert(names.contains(name));
            let k = choose|k: int| 0 <= k < names.len() && names[k] == name;
            assert(phase_at(m, archived_roadmap_dir_spec(project@, roadmap@) + "/"@ + names[k]) is Some);
        }
    }
    Ok(out)
}

/// What [`resolve_phase_stem`] gives.
pub open spec fn resolve_phase_stem_post(m: Files, project: &str, roadmap: &str, identifier: &str, r: Result<String>) -> bool {
    resolves_stem(m, project@, roadmap@, identifier@, r)
}

/// What resolving phase identifier `identifier` of `roadmap` gives: a number
/// names the phase with that number (the first with it in the listing of the
/// roadmap's phases), anything else is the stem itself.
pub open spec fn resolves_stem(m: Files, project: Seq<char>, roadmap: Seq<char>, identifier: Seq<char>, r: Result<String>) -> bool {
    &&& (parse_u32(identifier) is None ==> (r matches Ok(s) && s@ == identifier))
    &&& (parse_u32(identifier) matches Some(num) ==> {
            let m = m;
            &&& !m.contains_key(roadmap_path_spec(project, roadmap)) ==> (r matches Err(
                Error::RoadmapNotFound(n),
            ) && n@ == roadmap)
            &&& m.contains_key(roadmap_path_spec(project, roadmap)) && !phases_ok(
                m,
                project,
                roadmap,
            ) ==> (r matches Err(e) && (e is Io || e is FrontmatterParse))
            &&& m.contains_key(roadmap_path_spec(project, roadmap)) && phases_ok(
                m,
                project,
                roadmap,
            ) ==> (r is Ok <==> exists|name: Seq<char>|
                is_phase_file(m, project, roadmap, name) && (#[trigger] phase_item(
                    m,
                    project,
                    roadmap,
                    name,
                )).1.frontmatter.phase == num)
            &&& r matches Ok(s) ==> exists|name: Seq<char>|
                is_phase_file(m, project, roadmap, name) && (#[trigger] phase_item(
                    m,
                    project,
                    roadmap,
                    name,
                )).0 == s@ && phase_item(m, project, roadmap, name).1.frontmatter.phase == num
            &&& m.contains_key(roadmap_path_spec(project, roadmap)) && phases_ok(m, project, roadmap) && !(
            exists|name: Seq<char>|
                is_phase_file(m, project, roadmap, name) && (#[trigger] phase_item(
                    m,
                    project,
                    roadmap,
                    name,
                )).1.frontmatter.phase == num) ==> (r matches Err(Error::PhaseNotFound(n)) && n@ == identifier)
            &&& r matches Err(Error::PhaseNotFound(n)) ==> n@ == identifier
            &&& r matches Ok(s) ==> exists|v: Vec<(String, Document<Phase>)>, i: int|
                #![trigger lists_phases(m, project, roadmap, Ok::<Vec<(String, Document<Phase>)>, Error>(v)), v@[i]]
                lists_phases(m, project, roadmap, Ok::<Vec<(String, Document<Phase>)>, Error>(v)) && 0 <= i < v.len()
                    && v@[i].0@ == s@ && v@[i].1.frontmatter.phase == num
                    && forall|k: int| 0 <= k < i ==> (#[trigger] v@[k]).1.frontmatter.phase != num
        })
}

/// Finds a phase's stem: a number names the phase with that number, any
/// other identifier is taken as the stem itself.
pub fn resolve_phase_stem(store: &MemoryStore, project: &str, roadmap: &str, identifier: &str) -> (r:
    Result<String>)
    ensures
        resolve_phase_stem_post(store.files(), project, roadmap, identifier, r),
{
    match parse_u32_str(identifier) {
        Some(num) => {
            let phases = list_phases(store, project, roadmap)?;
            let ghost m = store.files();
            let ghost pv = phase_views(phases@);
            proof {
                let names = choose|names: Seq<Seq<char>>| phase_files(m, project@, roadmap@, names) && pv.to_multiset() == names.map_values(
                    |n: Seq<char>| phase_item(m, project@, roadmap@, n),
                ).to_multiset();
                lemma_listed_phases(m, project@, roadmap@, pv, names);
            }
            let mut i: usize = 0;
            let mut found = false;
            while i < phases.len() && !found
                invariant
                    i <= phases.len(),
                    pv == phase_views(phases@),
                    forall|k: int| 0 <= k < i ==> (#[trigger] pv[k]).1.frontmatter.phase != num,
                    found ==> i < phases.len() && pv[i as int].1.frontmatter.phase == num,
                decreases phases.len() - i, if found { 0int } else { 1int },
            {
                assert(pv[i as int] == (phases[i as int].0@, phases[i as int].1@));
                if phases[i].1.frontmatter.phase == num {
                    found = true;
                } else {
                    i = i + 1;
                }
            }
            if found {
                proof {
                    assert(pv.contains(pv[i as int]));
                    assert(pv[i as int] == (phases[i as int].0@, phases[i as int].1@));
                    assert forall|k: int| 0 <= k < i implies (#[trigger] phases@[k]).1.frontmatter.phase != num by {
                        assert(pv[k] == (phases[k].0@, phases[k].1@));
                    }
                    assert(lists_phases(m, project@, roadmap@, Ok::<Vec<(String, Document<Phase>)>, Error>(phases)));
                }
                return Ok(phases[i].0.clone());
            }
            proof {
                assert forall|name: Seq<char>| is_phase_file(m, project@, roadmap@, name) implies (#[trigger] phase_item(
                    m,
                    project@,
                    roadmap@,
                    name,
                )).1.frontmatter.phase != num by {
                    let x = phase_item(m, project@, roadmap@, name);
                    assert(is_phase_item(m, project@, roadmap@, x));
                    assert(pv.contains(x));
                    let k = choose|k: int| 0 <= k < pv.len() && pv[k] == x;
                    assert(pv[k].1.frontmatter.phase != num);
                }
            }
            Err(Error::PhaseNotFound(owned(identifier)))
        },
        None => Ok(owned(identifier)),
    }
}

/// The phase file of a roadmap is never its `roadmap.md`.
proof fn lemma_phase_file_not_roadmap(project: Seq<char>, roadmap: Seq<char>, stem: Seq<char>)
    requires
        stem != "roadmap"@,
    ensures
        phase_path_spec(project, roadmap, stem) != roadmap_path_spec(project, roadmap),
{
    reveal_strlit("/");
    reveal_strlit(".md");
    reveal_strlit("/roadmap.md");
    reveal_strlit("roadmap");
    let d = roadmap_dir_spec(project, roadmap);
    let a = phase_path_spec(project, roadmap, stem);
    let b = roadmap_path_spec(project, roadmap);
    if a == b {
        let ta = a.subrange(d.len() as int, a.len() as int);
        let tb = b.subrange(d.len() as int, b.len() as int);
        assert(ta =~= seq!['/'] + stem + seq!['.', 'm', 'd']);
        assert(tb =~= seq!['/', 'r', 'o', 'a', 'd', 'm', 'a', 'p', '.', 'm', 'd']);
        assert(ta == tb);
        assert(stem.len() == 7);
        assert forall|i: int| 0 <= i < 7 implies stem[i] == "roadmap"@[i] by {
            assert(ta[i + 1] == stem[i]);
            assert(tb[i + 1] == "roadmap"@[i]);
        }
        assert(stem =~= "roadmap"@);
    }
}

/// A phase stem never reads `roadmap`.
proof fn lemma_stem_not_roadmap(number: u32, slug: Seq<char>)
    ensures
        phase_stem_spec(number, slug) != "roadmap"@,
{
    reveal_strlit("phase-");
    reveal_strlit("roadmap");
    let s = phase_stem_spec(number, slug);
    assert(s[0] == 'p');
    assert("roadmap"@[0] == 'r');
}

/// A new phase's document.
pub open spec fn new_phase_doc(
    number: u32,
    title: Seq<char>,
    body: Seq<char>,
    tags: Option<Seq<Seq<char>>>,
) -> DocView<PhaseView> {
    DocView {
        frontmatter: PhaseView {
            phase: number,
            title: title,
            status: PhaseStatus::NotStarted,
            tags: tags,
            completed: None,
            commit: None,
            review_sha: None,
            review_branch: None,
            difficulty: None,
            model: None,
            blocked_reason: None,
        },
        body: body,
    }
}

/// The number a new phase gets when none is given: one more than the
/// highest phase number of the roadmap, or 1 for its first phase.
pub open spec fn is_next_number(m: Files, project: Seq<char>, roadmap: Seq<char>, n: int) -> bool {
    &&& forall|x: (Seq<char>, DocView<PhaseView>)|
        is_phase_item(m, project, roadmap, x) ==> x.1.frontmatter.phase < n
    &&& n == 1 || exists|x: (Seq<char>, DocView<PhaseView>)|
        is_phase_item(m, project, roadmap, x) && x.1.frontmatter.phase == n - 1
}

fn next_number(phases: &Vec<(String, Document<Phase>)>) -> (r: Option<u32>)
    requires
        by_number(phase_views(phases@)),
    ensures
        r matches Some(n) ==> (forall|k: int| 0 <= k < phases.len() ==> phases[k].1@.frontmatter.phase < n) && (n == 1 || exists|k: int| 0 <= k < phases.len() && phases[k].1@.frontmatter.phase == n - 1),
        r is None ==> phases.len() > 0 && exists|k: int| 0 <= k < phases.len() && phases[k].1@.frontmatter.phase == u32::MAX,
{
    if phases.len() == 0 {
        return Some(1);
    }
    let last = phases[phases.len() - 1].1.frontmatter.phase;
    proof {
        let pv = phase_views(phases@);
        assert forall|k: int| 0 <= k < phases.len() implies phases[k].1@.frontmatter.phase <= last by {
            assert(pv[k] == (phases[k].0@, phases[k].1@));
            assert(pv[phases.len() - 1] == (phases[phases.len() - 1].0@, phases[phases.len() - 1].1@));
            if k < phases.len() - 1 {
                assert(pv[k].1.frontmatter.phase <= pv[phases.len() - 1].1.frontmatter.phase);
            }
        }
    }
    if last == u32::MAX {
        None
    } else {
        Some(last + 1)
    }
}

/// What [`create_phase`] gives: its result and, for a change, the files it leaves.
pub open spec fn create_phase_post(m: Files, project: &str, roadmap: &str, slug: &str, title: &str, phase_number: Option<u32>, body: Option<&str>, tags: Option<Vec<String>>, r: Result<Document<Phase>>, m2: Files) -> bool {
    &&& (({
            let m = m;
            let rp = roadmap_path_spec(project@, roadmap@);
            &&& !m.contains_key(rp) ==> (r matches Err(Error::RoadmapNotFound(n)) && n@ == roadmap@
                && m2 == m)
            &&& m.contains_key(rp) && phase_number is None && !phases_ok(m, project@, roadmap@) ==> (
            r matches Err(e) && (e is Io || e is FrontmatterParse) && m2 == m)
            &&& r matches Ok(doc) ==> m.contains_key(rp) && (match phase_number {
                Some(n) => doc@.frontmatter.phase == n,
                None => is_next_number(m, project@, roadmap@, doc@.frontmatter.phase as int),
            }) && doc@ == new_phase_doc(
                doc@.frontmatter.phase,
                title@,
                crate::ops::roadmap::body_or_empty(body),
                tags.deep_view(),
            ) && !m.contains_key(
                phase_path_spec(project@, roadmap@, phase_stem_spec(doc@.frontmatter.phase, slug@)),
            ) && (roadmap_at(m, rp) matches Some(d) && m2 == m.insert(
                phase_path_spec(project@, roadmap@, phase_stem_spec(doc@.frontmatter.phase, slug@)),
                EntryView::Phase(doc@),
            ).insert(
                rp,
                EntryView::Roadmap(
                    DocView {
                        frontmatter: RoadmapView {
                            phases: d.frontmatter.phases.push(
                                phase_stem_spec(doc@.frontmatter.phase, slug@),
                            ),
                            ..d.frontmatter
                        },
                        ..d
                    },
                ),
            ))
            &&& m.contains_key(rp) && phase_number is Some ==> create_phase_outcome(
                m, project@, roadmap@, slug@, phase_number.unwrap(), r, m2)
            &&& m.contains_key(rp) && phase_number is None && phases_ok(m, project@, roadmap@) ==> (
                forall|n: int| #[trigger] is_next_number(m, project@, roadmap@, n) && n <= u32::MAX
                ==> create_phase_outcome(m, project@, roadmap@, slug@, n as u32, r, m2))
            &&& m.contains_key(rp) && phase_number is None && phases_ok(m, project@, roadmap@) && (
                exists|x: (Seq<char>, DocView<PhaseView>)| #[trigger] is_phase_item(m, project@, roadmap@, x)
                && x.1.frontmatter.phase == u32::MAX) ==> (r matches Err(e) && e is InvalidPhaseSelection
                && m2 == m)
        }))
}

/// What creating a phase numbered `number` gives once its number is known:
/// [`Error::DuplicateSlug`] with the store unchanged exactly when the new
/// stem's file exists, and otherwise the new phase, unless the roadmap's own
/// file does not parse.
pub open spec fn create_phase_outcome(m: Files, project: Seq<char>, roadmap: Seq<char>, slug: Seq<char>, number: u32, r: Result<Document<Phase>>, m2: Files) -> bool {
    let stem = phase_stem_spec(number, slug);
    if m.contains_key(phase_path_spec(project, roadmap, stem)) {
        r matches Err(Error::DuplicateSlug(n)) && n@ == stem && m2 == m
    } else if roadmap_at(m, roadmap_path_spec(project, roadmap)) is Some {
        r matches Ok(doc) && doc@.frontmatter.phase == number
    } else {
        r matches Err(e) && e is FrontmatterParse
    }
}

/// Two numbers that both follow a roadmap's highest phase are the same.
proof fn lemma_next_number_unique(m: Files, project: Seq<char>, roadmap: Seq<char>, a: int, b: int)
    requires
        is_next_number(m, project, roadmap, a),
        is_next_number(m, project, roadmap, b),
    ensures
        a == b,
{
    if a != 1 {
        let x = choose|x: (Seq<char>, DocView<PhaseView>)| is_phase_item(m, project, roadmap, x) && x.1.frontmatter.phase == a - 1;
        assert(x.1.frontmatter.phase < b);
    }
    if b != 1 {
        let y = choose|y: (Seq<char>, DocView<PhaseView>)| is_phase_item(m, project, roadmap, y) && y.1.frontmatter.phase == b - 1;
        assert(y.1.frontmatter.phase < a);
    }
}

/// Creates a phase numbered `phase_number`, or one past the roadmap's
/// highest, with the stem `phase-<number>-<slug>`, and appends its stem to
/// the roadmap's phases.
pub fn create_phase(
    store: &mut MemoryStore,
    project: &str,
    roadmap: &str,
    slug: &str,
    title: &str,
    phase_number: Option<u32>,
    body: Option<&str>,
    tags: Option<Vec<String>>,
) -> (r: Result<Document<Phase>>)
    ensures
        create_phase_post(old(store).files(), project, roadmap, slug, title, phase_number, body, tags, r, final(store).files()),
{
    if !store.file_exists(&roadmap_path(project, roadmap)) {
        return Err(Error::RoadmapNotFound(owned(roadmap)));
    }
    let ghost m = store.files();
    let number = match phase_number {
        Some(n) => n,
        None => {
            let existing = list_phases(store, project, roadmap)?;
            proof {
                let pv = phase_views(existing@);
                let names = choose|names: Seq<Seq<char>>| phase_files(m, project@, roadmap@, names) && pv.to_multiset() == names.map_values(
                    |n: Seq<char>| phase_item(m, project@, roadmap@, n),
                ).to_multiset();
                lemma_listed_phases(m, project@, roadmap@, pv, names);
            }
            match next_number(&existing) {
                Some(n) => {
                    proof {
                        let pv = phase_views(existing@);
                        assert forall|x: (Seq<char>, DocView<PhaseView>)| is_phase_item(m, project@, roadmap@, x) implies x.1.frontmatter.phase < n by {
                            assert(pv.contains(x));
                            let k = choose|k: int| 0 <= k < pv.len() && pv[k] == x;
                            assert(pv[k] == (existing[k].0@, existing[k].1@));
                        }
                        if n != 1 {
                            let k = choose|k: int| 0 <= k < existing.len() && existing[k].1@.frontmatter.phase == n - 1;
                            assert(pv[k] == (existing[k].0@, existing[k].1@));
                            assert(pv.contains(pv[k]));
                            assert(is_phase_item(m, project@, roadmap@, pv[k]));
                        }
                    }
                    proof {
                        assert forall|n2: int| #[trigger] is_next_number(m, project@, roadmap@, n2) implies n2 == n by {
                            lemma_next_number_unique(m, project@, roadmap@, n2, n as int);
                        }
                    }
                    n
                },
                None => {
                    proof {
                        let pv = phase_views(existing@);
                        let k = choose|k: int| 0 <= k < existing.len() && existing[k].1@.frontmatter.phase == u32::MAX;
                        assert(pv[k] == (existing[k].0@, existing[k].1@));
                        assert(pv.contains(pv[k]));
                        assert(is_phase_item(m, project@, roadmap@, pv[k]));
                        assert forall|n2: int| #[trigger] is_next_number(m, project@, roadmap@, n2) implies n2 > u32::MAX by {
                            assert(pv[k].1.frontmatter.phase < n2);
                        }
                    }
                    return Err(Error::InvalidPhaseSelection(owned("no phase number is left after the highest one")));
                },
            }
        },
    };
    let stem = phase_stem(number, slug);
    let path = phase_path(project, roadmap, stem.as_str());
    if store.file_exists(&path) {
        return Err(Error::DuplicateSlug(stem));
    }
    let doc = Document {
        frontmatter: Phase {
            phase: number,
            title: owned(title),
            status: PhaseStatus::NotStarted,
            tags,
            completed: None,
            commit: None,
            review_sha: None,
            review_branch: None,
            difficulty: None,
            model: None,
            blocked_reason: None,
        },
        body: crate::ops::roadmap::body_text(body),
    };
    write_phase(store, project, roadmap, stem.as_str(), &doc);
    proof {
        lemma_stem_not_roadmap(number, slug@);
        lemma_phase_file_not_roadmap(project@, roadmap@, stem@);
    }
    let mut roadmap_doc = load_roadmap(store, project, roadmap)?;
    let ghost d0 = roadmap_doc@;
    let ghost sv = stem@;
    roadmap_doc.frontmatter.phases.push(stem);
    assert(roadmap_doc@.frontmatter.phases =~= d0.frontmatter.phases.push(sv));
    write_roadmap(store, project, roadmap, &roadmap_doc);
    Ok(doc)
}

/// A phase's frontmatter after a status change. Re-entering the terminal
/// status it already has keeps its completion date and takes a new commit
/// only when one is given; any other change stamps `today` and the commit
/// on entering a terminal status and clears both otherwise. The review SHA
/// is kept only on entering `needs-review`.
pub open spec fn phase_status_applied(
    fm: PhaseView,
    status: Option<PhaseStatus>,
    commit: Option<Seq<char>>,
    review_sha: Option<Seq<char>>,
    today: Date,
) -> PhaseView {
    match status {
        None => fm,
        Some(s) => if s.is_terminal_spec() && fm.status == s {
            PhaseView {
                commit: match commit {
                    Some(c) => Some(c),
                    None => fm.commit,
                },
                ..fm
            }
        } else {
            PhaseView {
                status: s,
                completed: if s.is_terminal_spec() {
                    Some(today)
                } else {
                    None
                },
                commit: if s.is_terminal_spec() {
                    commit
                } else {
                    None
                },
                review_sha: if s == PhaseStatus::NeedsReview {
                    review_sha
                } else {
                    None
                },
                ..fm
            }
        },
    }
}

/// Applies a status change to a phase's frontmatter; see
/// [`phase_status_applied`].
pub fn apply_phase_status(
    fm: &mut Phase,
    status: Option<PhaseStatus>,
    commit: Option<String>,
    review_sha: Option<String>,
    today: Date,
)
    ensures
        final(fm)@ == phase_status_applied(old(fm)@, status, commit.deep_view(), review_sha.deep_view(), today),
{
    match status {
        None => {},
        Some(s) => {
            if s.is_terminal() && fm.status == s {
                match commit {
                    Some(sha) => {
                        fm.commit = Some(sha);
                    },
                    None => {},
                }
            } else {
                fm.status = s;
                if s.is_terminal() {
                    fm.completed = Some(today);
                    fm.commit = commit;
                } else {
                    fm.completed = None;
                    fm.commit = None;
                }
                if s == PhaseStatus::NeedsReview {
                    fm.review_sha = review_sha;
                } else {
                    fm.review_sha = None;
                }
            }
        },
    }
}

/// What [`update_phase`] gives: its result and, for a change, the files it leaves.
pub open spec fn update_phase_post(m: Files, project: &str, roadmap: &str, phase_stem: &str, status: Option<PhaseStatus>, tags: TagsUpdate, body: BodyUpdate, commit: Option<String>, review_sha: Option<String>, r: Result<Document<Phase>>, m2: Files) -> bool {
    &&& (({
            let m = m;
            let pp = phase_path_spec(project@, roadmap@, phase_stem@);
            &&& !m.contains_key(pp) ==> (r matches Err(Error::PhaseNotFound(n)) && n@ == phase_stem@)
            &&& r is Err ==> m2 == m
            &&& m.contains_key(pp) && phase_at(m, pp) is None ==> (r matches Err(e) && e is FrontmatterParse)
            &&& r matches Ok(doc) ==> phase_at(m, pp) matches Some(d) && (exists|today: Date|
                crate::ops::backlog::calendar_date(today) &&
                doc@.frontmatter == PhaseView {
                    tags: match tags {
                        TagsUpdate::Keep => d.frontmatter.tags,
                        TagsUpdate::Clear => None,
                        TagsUpdate::SetTo(n) => if n@.len() == 0 {
                            None
                        } else {
                            Some(n.deep_view())
                        },
                    },
                    ..#[trigger] phase_status_applied(d.frontmatter, status, commit.deep_view(), review_sha.deep_view(), today)
                }) && doc@.body == match body {
                    BodyUpdate::Keep => d.body,
                    BodyUpdate::Clear => Seq::<char>::empty(),
                    BodyUpdate::SetTo(n) => n@,
                } && m2 == m.insert(pp, EntryView::Phase(doc@))
            &&& phase_at(m, pp) matches Some(d) ==> (r is Ok <==> !(body matches BodyUpdate::SetTo(n) && n@.len() == 0 && d.body.len() > 0))
            &&& phase_at(m, pp) matches Some(d) ==> ((body matches BodyUpdate::SetTo(n) && n@.len() == 0) && d.body.len() > 0 ==> r
                == Err::<Document<Phase>, Error>(Error::BodyClobberRefused))
        }))
}

/// Updates a phase's status (see [`phase_status_applied`]; a terminal
/// status is dated today), tags and body.
pub fn update_phase(
    store: &mut MemoryStore,
    project: &str,
    roadmap: &str,
    phase_stem: &str,
    status: Option<PhaseStatus>,
    tags: TagsUpdate,
    body: BodyUpdate,
    commit: Option<String>,
    review_sha: Option<String>,
) -> (r: Result<Document<Phase>>)
    ensures
        update_phase_post(old(store).files(), project, roadmap, phase_stem, status, tags, body, commit, review_sha, r, final(store).files()),
{
    if !store.file_exists(&phase_path(project, roadmap, phase_stem)) {
        return Err(Error::PhaseNotFound(owned(phase_stem)));
    }
    let mut doc = load_phase(store, project, roadmap, phase_stem)?;
    let ghost d0 = doc@;
    let ghost cv = commit.deep_view();
    let ghost rv = review_sha.deep_view();
    let today = crate::clock::today();
    apply_phase_status(&mut doc.frontmatter, status, commit, review_sha, today);
    let ghost applied = phase_status_applied(d0.frontmatter, status, cv, rv, today);
    assert(doc@.frontmatter == applied);
    tags.apply(&mut doc.frontmatter.tags);
    body.apply(&mut doc.body)?;
    assert(doc@.frontmatter == PhaseView {
        tags: match tags {
            TagsUpdate::Keep => d0.frontmatter.tags,
            TagsUpdate::Clear => None,
            TagsUpdate::SetTo(n) => if n@.len() == 0 {
                None
            } else {
                Some(n.deep_view())
            },
        },
        ..applied
    });
    write_phase(store, project, roadmap, phase_stem, &doc);
    Ok(doc)
}

/// What [`set_phase_estimate`] gives: its result and, for a change, the files it leaves.
pub open spec fn set_phase_estimate_post(m: Files, project: &str, roadmap: &str, phase_stem: &str, difficulty: DifficultyUpdate, model: ModelTierUpdate, r: Result<Document<Phase>>, m2: Files) -> bool {
    &&& (({
            let m = m;
            let pp = phase_path_spec(project@, roadmap@, phase_stem@);
            &&& !m.contains_key(pp) ==> (r matches Err(Error::PhaseNotFound(n)) && n@ == phase_stem@)
            &&& r is Err ==> m2 == m
            &&& m.contains_key(pp) ==> match phase_at(m, pp) {
                None => (r matches Err(e) && e is FrontmatterParse),
                Some(d) => {
                    let diff = match difficulty {
                        DifficultyUpdate::Keep => d.frontmatter.difficulty,
                        DifficultyUpdate::SetTo(x) => Some(x),
                        DifficultyUpdate::Clear => None,
                    };
                    let tier = match model {
                        ModelTierUpdate::Keep => d.frontmatter.model,
                        ModelTierUpdate::SetTo(x) => Some(x),
                        ModelTierUpdate::Clear => None,
                    };
                    let tier2 = match (difficulty, model) {
                        (DifficultyUpdate::SetTo(x), ModelTierUpdate::Keep) => if tier is None {
                            Some(x.model_tier_spec())
                        } else {
                            tier
                        },
                        _ => tier,
                    };
                    r matches Ok(doc) && doc@ == DocView {
                        frontmatter: PhaseView { difficulty: diff, model: tier2, ..d.frontmatter },
                        ..d
                    } && m2 == m.insert(pp, EntryView::Phase(doc@))
                },
            }
        }))
}

/// Sets a phase's difficulty and model tier; setting a difficulty while
/// keeping the tier fills in the difficulty's tier when none is recorded.
pub fn set_phase_estimate(
    store: &mut MemoryStore,
    project: &str,
    roadmap: &str,
    phase_stem: &str,
    difficulty: DifficultyUpdate,
    model: ModelTierUpdate,
) -> (r: Result<Document<Phase>>)
    ensures
        set_phase_estimate_post(old(store).files(), project, roadmap, phase_stem, difficulty, model, r, final(store).files()),
{
    if !store.file_exists(&phase_path(project, roadmap, phase_stem)) {
        return Err(Error::PhaseNotFound(owned(phase_stem)));
    }
    let mut doc = load_phase(store, project, roadmap, phase_stem)?;
    difficulty.apply(&mut doc.frontmatter.difficulty);
    model.apply(&mut doc.frontmatter.model);
    match (difficulty, model) {
        (DifficultyUpdate::SetTo(d), ModelTierUpdate::Keep) => {
            if doc.frontmatter.model.is_none() {
                doc.frontmatter.model = Some(d.model_tier());
            }
        },
        _ => {},
    }
    write_phase(store, project, roadmap, phase_stem, &doc);
    Ok(doc)
}

/// What [`remove_phase`] gives: its result and, for a change, the files it leaves.
pub open spec fn remove_phase_post(m: Files, project: &str, roadmap: &str, phase_stem: &str, r: Result<()>, m2: Files) -> bool {
    &&& (({
            let m = m;
            let pp = phase_path_spec(project@, roadmap@, phase_stem@);
            let rp = roadmap_path_spec(project@, roadmap@);
            &&& !m.contains_key(pp) ==> (r matches Err(Error::PhaseNotFound(n)) && n@ == phase_stem@
                && m2 == m)
            &&& m.contains_key(pp) && (!m.contains_key(rp) || pp == rp) ==> (r matches Err(Error::RoadmapNotFound(n)) && n@ == roadmap@ && m2 == m.remove(pp))
            &&& m.contains_key(pp) && pp != rp && m.contains_key(rp) && roadmap_at(m, rp) is None ==> (r matches Err(e) && e is FrontmatterParse && m2 == m.remove(pp))
            &&& m.contains_key(pp) && pp != rp ==> (roadmap_at(m, rp) matches Some(d) ==> (r is Ok && m2 == m.remove(pp).insert(
                rp,
                EntryView::Roadmap(
                    DocView {
                        frontmatter: RoadmapView {
                            phases: d.frontmatter.phases.filter(|x: Seq<char>| x != phase_stem@),
                            ..d.frontmatter
                        },
                        ..d
                    },
                ),
            )))
        }))
}

/// Deletes a phase and drops its stem from the roadmap's phases.
pub fn remove_phase(store: &mut MemoryStore, project: &str, roadmap: &str, phase_stem: &str) -> (r:
    Result<()>)
    ensures
        remove_phase_post(old(store).files(), project, roadmap, phase_stem, r, final(store).files()),
{
    let path = phase_path(project, roadmap, phase_stem);
    if !store.file_exists(&path) {
        return Err(Error::PhaseNotFound(owned(phase_stem)));
    }
    let _ = store.delete(&path);
    let mut roadmap_doc = load_roadmap(store, project, roadmap)?;
    roadmap_doc.frontmatter.phases = crate::model::strings_without(&roadmap_doc.frontmatter.phases, phase_stem);
    write_roadmap(store, project, roadmap, &roadmap_doc);
    Ok(())
}

} // verus!
