//! Where each file of a plan repo lives.
//!
//! Pure functions from names to [`RelPath`]s; they never touch a store.
use vstd::prelude::*;

use crate::store::RelPath;
use crate::text::{cat, cat3, owned, split_once, split_once_char, str_eq, strip_suffix};

verus! {

/// `projects/<project>`.
pub open spec fn project_dir_spec(project: Seq<char>) -> Seq<char> {
    "projects/"@ + project
}

/// `projects/<project>/<leaf>`.
pub open spec fn in_project(project: Seq<char>, leaf: Seq<char>) -> Seq<char> {
    project_dir_spec(project) + "/"@ + leaf
}

/// `projects/<project>/project.md`.
pub open spec fn project_md_spec(project: Seq<char>) -> Seq<char> {
    in_project(project, "project.md"@)
}

/// `projects/<project>/roadmaps`.
pub open spec fn roadmaps_dir_spec(project: Seq<char>) -> Seq<char> {
    in_project(project, "roadmaps"@)
}

/// `projects/<project>/roadmaps/<roadmap>`.
pub open spec fn roadmap_dir_spec(project: Seq<char>, roadmap: Seq<char>) -> Seq<char> {
    roadmaps_dir_spec(project) + "/"@ + roadmap
}

/// `projects/<project>/roadmaps/<roadmap>/roadmap.md`.
pub open spec fn roadmap_path_spec(project: Seq<char>, roadmap: Seq<char>) -> Seq<char> {
    roadmap_dir_spec(project, roadmap) + "/roadmap.md"@
}

/// `projects/<project>/roadmaps/<roadmap>/<stem>.md`.
pub open spec fn phase_path_spec(project: Seq<char>, roadmap: Seq<char>, stem: Seq<char>) -> Seq<
    char,
> {
    roadmap_dir_spec(project, roadmap) + "/"@ + stem + ".md"@
}

/// `projects/<project>/tasks`.
pub open spec fn tasks_dir_spec(project: Seq<char>) -> Seq<char> {
    in_project(project, "tasks"@)
}

/// `projects/<project>/tasks/<slug>.md`.
pub open spec fn task_path_spec(project: Seq<char>, slug: Seq<char>) -> Seq<char> {
    tasks_dir_spec(project) + "/"@ + slug + ".md"@
}

/// `projects/<project>/reviews`.
pub open spec fn reviews_dir_spec(project: Seq<char>) -> Seq<char> {
    in_project(project, "reviews"@)
}

/// `projects/<project>/reviews/<id>.md`.
pub open spec fn review_path_spec(project: Seq<char>, id: Seq<char>) -> Seq<char> {
    reviews_dir_spec(project) + "/"@ + id + ".md"@
}

/// `projects/<project>/plans`.
pub open spec fn plans_dir_spec(project: Seq<char>) -> Seq<char> {
    in_project(project, "plans"@)
}

/// `projects/<project>/plans/<slug>.md`.
pub open spec fn plan_path_spec(project: Seq<char>, slug: Seq<char>) -> Seq<char> {
    plans_dir_spec(project) + "/"@ + slug + ".md"@
}

/// `projects/<project>/runs`.
pub open spec fn runs_dir_spec(project: Seq<char>) -> Seq<char> {
    in_project(project, "runs"@)
}

/// `projects/<project>/runs/<id>.md`.
pub open spec fn run_path_spec(project: Seq<char>, id: Seq<char>) -> Seq<char> {
    runs_dir_spec(project) + "/"@ + id + ".md"@
}

/// `projects/<project>/archive/roadmaps`.
pub open spec fn archived_roadmaps_dir_spec(project: Seq<char>) -> Seq<char> {
    in_project(project, "archive/roadmaps"@)
}

/// `projects/<project>/archive/roadmaps/<roadmap>`.
pub open spec fn archived_roadmap_dir_spec(project: Seq<char>, roadmap: Seq<char>) -> Seq<char> {
    archived_roadmaps_dir_spec(project) + "/"@ + roadmap
}

/// `projects/<project>/archive/roadmaps/<roadmap>/roadmap.md`.
pub open spec fn archived_roadmap_path_spec(project: Seq<char>, roadmap: Seq<char>) -> Seq<char> {
    archived_roadmap_dir_spec(project, roadmap) + "/roadmap.md"@
}

/// `projects/<project>/archive/roadmaps/<roadmap>/<stem>.md`.
pub open spec fn archived_phase_path_spec(
    project: Seq<char>,
    roadmap: Seq<char>,
    stem: Seq<char>,
) -> Seq<char> {
    archived_roadmap_dir_spec(project, roadmap) + "/"@ + stem + ".md"@
}

/// `projects/<project>/INDEX.md`.
pub open spec fn project_index_spec(project: Seq<char>) -> Seq<char> {
    in_project(project, "INDEX.md"@)
}

/// The repo configuration file, `rdm.toml`.
pub fn config_path() -> (r: RelPath)
    ensures
        r@ == "rdm.toml"@,
{
    RelPath::from_string(owned("rdm.toml"))
}

/// The top-level index, `INDEX.md`.
pub fn index_path() -> (r: RelPath)
    ensures
        r@ == "INDEX.md"@,
{
    RelPath::from_string(owned("INDEX.md"))
}

/// The directory of a project.
pub fn project_path(project: &str) -> (r: RelPath)
    ensures
        r@ == project_dir_spec(project@),
{
    RelPath::from_string(cat("projects/", project))
}

fn project_leaf(project: &str, leaf: &str) -> (r: String)
    ensures
        r@ == in_project(project@, leaf@),
{
    let mut s = cat3("projects/", project, "/");
    s.append(leaf);
    s
}

/// A project's own document.
pub fn project_md_path(project: &str) -> (r: RelPath)
    ensures
        r@ == project_md_spec(project@),
{
    RelPath::from_string(project_leaf(project, "project.md"))
}

/// A project's generated index.
pub fn project_index_path(project: &str) -> (r: RelPath)
    ensures
        r@ == project_index_spec(project@),
{
    RelPath::from_string(project_leaf(project, "INDEX.md"))
}

/// The directory that holds a project's roadmaps.
pub fn roadmaps_dir(project: &str) -> (r: RelPath)
    ensures
        r@ == roadmaps_dir_spec(project@),
{
    RelPath::from_string(project_leaf(project, "roadmaps"))
}

/// The directory of one roadmap.
pub fn roadmap_dir(project: &str, roadmap: &str) -> (r: RelPath)
    ensures
        r@ == roadmap_dir_spec(project@, roadmap@),
{
    let mut s = project_leaf(project, "roadmaps");
    s.append("/");
    s.append(roadmap);
    RelPath::from_string(s)
}

/// A roadmap's document.
pub fn roadmap_path(project: &str, roadmap: &str) -> (r: RelPath)
    ensures
        r@ == roadmap_path_spec(project@, roadmap@),
{
    let mut s = project_leaf(project, "roadmaps");
    s.append("/");
    s.append(roadmap);
    s.append("/roadmap.md");
    RelPath::from_string(s)
}

/// A phase's document, by the phase's file stem.
pub fn phase_path(project: &str, roadmap: &str, phase_stem: &str) -> (r: RelPath)
    ensures
        r@ == phase_path_spec(project@, roadmap@, phase_stem@),
{
    let mut s = project_leaf(project, "roadmaps");
    s.append("/");
    s.append(roadmap);
    s.append("/");
    s.append(phase_stem);
    s.append(".md");
    RelPath::from_string(s)
}

/// The directory that holds a project's tasks.
pub fn tasks_dir(project: &str) -> (r: RelPath)
    ensures
        r@ == tasks_dir_spec(project@),
{
    RelPath::from_string(project_leaf(project, "tasks"))
}

/// A task's document.
pub fn task_path(project: &str, task_slug: &str) -> (r: RelPath)
    ensures
        r@ == task_path_spec(project@, task_slug@),
{
    let mut s = project_leaf(project, "tasks");
    s.append("/");
    s.append(task_slug);
    s.append(".md");
    RelPath::from_string(s)
}

/// The directory that holds a project's reviews.
pub fn reviews_dir(project: &str) -> (r: RelPath)
    ensures
        r@ == reviews_dir_spec(project@),
{
    RelPath::from_string(project_leaf(project, "reviews"))
}

/// A review's document.
pub fn review_path(project: &str, review_id: &str) -> (r: RelPath)
    ensures
        r@ == review_path_spec(project@, review_id@),
{
    let mut s = project_leaf(project, "reviews");
    s.append("/");
    s.append(review_id);
    s.append(".md");
    RelPath::from_string(s)
}

/// The directory that holds a project's implementation plans.
pub fn plans_dir(project: &str) -> (r: RelPath)
    ensures
        r@ == plans_dir_spec(project@),
{
    RelPath::from_string(project_leaf(project, "plans"))
}

/// An implementation plan's document.
pub fn plan_path(project: &str, slug: &str) -> (r: RelPath)
    ensures
        r@ == plan_path_spec(project@, slug@),
{
    let mut s = project_leaf(project, "plans");
    s.append("/");
    s.append(slug);
    s.append(".md");
    RelPath::from_string(s)
}

/// The directory that holds a project's run records.
pub fn runs_dir(project: &str) -> (r: RelPath)
    ensures
        r@ == runs_dir_spec(project@),
{
    RelPath::from_string(project_leaf(project, "runs"))
}

/// A run record's document.
pub fn run_path(project: &str, run_id: &str) -> (r: RelPath)
    ensures
        r@ == run_path_spec(project@, run_id@),
{
    let mut s = project_leaf(project, "runs");
    s.append("/");
    s.append(run_id);
    s.append(".md");
    RelPath::from_string(s)
}

/// The directory that holds a project's archived roadmaps.
pub fn archived_roadmaps_dir(project: &str) -> (r: RelPath)
    ensures
        r@ == archived_roadmaps_dir_spec(project@),
{
    RelPath::from_string(project_leaf(project, "archive/roadmaps"))
}

/// The directory of one archived roadmap.
pub fn archived_roadmap_dir(project: &str, roadmap: &str) -> (r: RelPath)
    ensures
        r@ == archived_roadmap_dir_spec(project@, roadmap@),
{
    let mut s = project_leaf(project, "archive/roadmaps");
    s.append("/");
    s.append(roadmap);
    RelPath::from_string(s)
}

/// An archived roadmap's document.
pub fn archived_roadmap_path(project: &str, roadmap: &str) -> (r: RelPath)
    ensures
        r@ == archived_roadmap_path_spec(project@, roadmap@),
{
    let mut s = project_leaf(project, "archive/roadmaps");
    s.append("/");
    s.append(roadmap);
    s.append("/roadmap.md");
    RelPath::from_string(s)
}

/// An archived phase's document.
pub fn archived_phase_path(project: &str, roadmap: &str, phase_stem: &str) -> (r: RelPath)
    ensures
        r@ == archived_phase_path_spec(project@, roadmap@, phase_stem@),
{
    let mut s = project_leaf(project, "archive/roadmaps");
    s.append("/");
    s.append(roadmap);
    s.append("/");
    s.append(phase_stem);
    s.append(".md");
    RelPath::from_string(s)
}

/// The `/`-separated segments of `s`, empty ones included.
pub open spec fn segments(s: Seq<char>) -> Seq<Seq<char>>
    decreases s.len(),
{
    match split_once(s, '/') {
        Some((a, b)) => {
            if b.len() < s.len() {
                seq![a] + segments(b)
            } else {
                seq![s]
            }
        },
        None => seq![s],
    }
}

/// `file` without its `.md` extension, when it has one.
pub open spec fn md_stem(file: Seq<char>) -> Option<Seq<char>> {
    if crate::text::is_suffix(".md"@, file) {
        Some(file.subrange(0, file.len() - 3))
    } else {
        None
    }
}

/// The item a repo path names, in the words the command line uses:
/// `task/<slug>`, `review/<id>`, `roadmap/<slug>`, `phase/<roadmap>/<stem>`.
pub open spec fn describe_rest(rest: Seq<Seq<char>>) -> Option<Seq<char>> {
    if rest.len() == 2 && rest[0] == "tasks"@ {
        match md_stem(rest[1]) {
            Some(s) => Some("task/"@ + s),
            None => None,
        }
    } else if rest.len() == 2 && rest[0] == "reviews"@ {
        match md_stem(rest[1]) {
            Some(s) => Some("review/"@ + s),
            None => None,
        }
    } else if rest.len() == 3 && rest[0] == "roadmaps"@ && rest[2] == "roadmap.md"@ {
        Some("roadmap/"@ + rest[1])
    } else if rest.len() == 3 && rest[0] == "roadmaps"@ {
        match md_stem(rest[2]) {
            Some(s) => Some("phase/"@ + rest[1] + "/"@ + s),
            None => None,
        }
    } else {
        None
    }
}

/// What [`describe_path`] answers for `path`.
pub open spec fn describe_spec(path: Seq<char>) -> Seq<char> {
    let segs = segments(path);
    if segs.len() < 4 || segs[0] != "projects"@ {
        path
    } else {
        let rest = if segs[2] == "archive"@ {
            segs.subrange(3, segs.len() as int)
        } else {
            segs.subrange(2, segs.len() as int)
        };
        match describe_rest(rest) {
            Some(d) => d,
            None => path,
        }
    }
}

/// Splits `s` at every `/`; see [`segments`].
pub fn split_segments(s: &str) -> (r: Vec<String>)
    ensures
        r.deep_view() == segments(s@),
{
    let mut out: Vec<String> = Vec::new();
    let mut cur: &str = s;
    loop
        invariant
            out.deep_view() + segments(cur@) == segments(s@),
        decreases cur@.len(),
    {
        match split_once_char(cur, '/') {
            Some((a, b)) => {
                proof {
                    crate::text::lemma_first_index(cur@, '/');
                }
                let ghost o0 = out.deep_view();
                out.push(owned(a));
                assert(out.deep_view() =~= o0.push(a@));
                assert(segments(cur@) == seq![a@] + segments(b@));
                assert(out.deep_view() + segments(b@) =~= o0 + (seq![a@] + segments(b@)));
                cur = b;
            },
            None => {
                let ghost o0 = out.deep_view();
                out.push(owned(cur));
                assert(out.deep_view() =~= o0 + seq![cur@]);
                return out;
            },
        }
    }
}

fn md_stem_of(file: &str) -> (r: Option<&str>)
    ensures
        r.deep_view() == md_stem(file@),
{
    proof {
        reveal_strlit(".md");
    }
    strip_suffix(file, ".md")
}

fn describe_rest_of(rest: &[String]) -> (r: Option<String>)
    ensures
        r.deep_view() == describe_rest(rest.deep_view()),
{
    let n = rest.len();
    if n == 2 && str_eq(rest[0].as_str(), "tasks") {
        match md_stem_of(rest[1].as_str()) {
            Some(s) => Some(cat("task/", s)),
            None => None,
        }
    } else if n == 2 && str_eq(rest[0].as_str(), "reviews") {
        match md_stem_of(rest[1].as_str()) {
            Some(s) => Some(cat("review/", s)),
            None => None,
        }
    } else if n == 3 && str_eq(rest[0].as_str(), "roadmaps") && str_eq(
        rest[2].as_str(),
        "roadmap.md",
    ) {
        Some(cat("roadmap/", rest[1].as_str()))
    } else if n == 3 && str_eq(rest[0].as_str(), "roadmaps") {
        match md_stem_of(rest[2].as_str()) {
            Some(s) => {
                let mut d = cat3("phase/", rest[1].as_str(), "/");
                d.append(s);
                Some(d)
            },
            None => None,
        }
    } else {
        None
    }
}

/// Names the item a repo path holds (`task/<slug>`, `review/<id>`,
/// `roadmap/<slug>`, `phase/<roadmap>/<stem>`, archived roadmaps and phases
/// under their own names); any other path answers with itself.
pub fn describe_path(path: &str) -> (r: String)
    ensures
        r@ == describe_spec(path@),
{
    let segs = split_segments(path);
    let ghost sv = segs.deep_view();
    if segs.len() < 4 || !str_eq(segs[0].as_str(), "projects") {
        return owned(path);
    }
    let start: usize = if str_eq(segs[2].as_str(), "archive") {
        3
    } else {
        2
    };
    let rest = vstd::slice::slice_subrange(segs.as_slice(), start, segs.len());
    let ghost expect = sv.subrange(start as int, sv.len() as int);
    assert(rest.deep_view() =~= expect);
    match describe_rest_of(rest) {
        Some(d) => d,
        None => owned(path),
    }
}


proof fn lemma_no_slash_concat(a: Seq<char>, b: Seq<char>)
    requires
        !crate::text::has_char(a, '/'),
        !crate::text::has_char(b, '/'),
    ensures
        !crate::text::has_char(a + b, '/'),
{
    assert forall|i: int| 0 <= i < (a + b).len() implies (a + b)[i] != '/' by {
        if i < a.len() {
            assert((a + b)[i] == a[i]);
        } else {
            assert((a + b)[i] == b[i - a.len()]);
        }
    }
}

proof fn lemma_segments_single(a: Seq<char>)
    requires
        !crate::text::has_char(a, '/'),
    ensures
        segments(a) == seq![a],
{
    crate::text::lemma_first_index_none(a, '/');
}

proof fn lemma_segments_cons(a: Seq<char>, b: Seq<char>)
    requires
        !crate::text::has_char(a, '/'),
    ensures
        segments(a + seq!['/'] + b) == seq![a] + segments(b),
{
    let s = a + seq!['/'] + b;
    assert(s[a.len() as int] == '/');
    assert forall|j: int| 0 <= j < a.len() implies s[j] != '/' by {
        assert(s[j] == a[j]);
    }
    crate::text::lemma_first_index_at(s, '/', a.len() as int);
    assert(s.subrange(0, a.len() as int) =~= a);
    assert(s.subrange(a.len() as int + 1, s.len() as int) =~= b);
}

proof fn lemma_md_stem(x: Seq<char>)
    ensures
        md_stem(x + ".md"@) == Some(x),
{
    reveal_strlit(".md");
    let y = x + ".md"@;
    assert(y.subrange(y.len() - 3, y.len() as int) =~= ".md"@);
    assert(y.subrange(0, y.len() - 3) =~= x);
}

/// Item files are described in the words a review target is labelled with:
/// a task's file as `task/<slug>`, a roadmap's as `roadmap/<slug>` and a
/// phase's as `phase/<roadmap>/<stem>`, for names without `/` and a phase
/// stem other than `roadmap`.
pub proof fn lemma_describe_matches_label(project: Seq<char>, t: crate::model::TargetView)
    requires
        !crate::text::has_char(project, '/'),
        match t {
            crate::model::TargetView::Roadmap { roadmap } => !crate::text::has_char(roadmap, '/'),
            crate::model::TargetView::Phase { roadmap, stem } => !crate::text::has_char(roadmap, '/')
                && !crate::text::has_char(stem, '/') && stem != "roadmap"@,
            crate::model::TargetView::Task { slug } => !crate::text::has_char(slug, '/'),
        },
    ensures
        describe_spec(
            match t {
                crate::model::TargetView::Roadmap { roadmap } => roadmap_path_spec(project, roadmap),
                crate::model::TargetView::Phase { roadmap, stem } => phase_path_spec(project, roadmap, stem),
                crate::model::TargetView::Task { slug } => task_path_spec(project, slug),
            },
        ) == crate::model::target_label(t),
{
    reveal_strlit("projects/");
    reveal_strlit("projects");
    reveal_strlit("/");
    reveal_strlit("tasks");
    reveal_strlit("roadmaps");
    reveal_strlit("archive");
    reveal_strlit("roadmap.md");
    reveal_strlit("/roadmap.md");
    reveal_strlit(".md");
    reveal_strlit("reviews");
    reveal_strlit("roadmap");
    let slash = seq!['/'];
    let pj = "projects"@;
    assert("projects/"@ =~= pj + slash);
    assert(!crate::text::has_char(pj, '/'));
    assert(!crate::text::has_char("tasks"@, '/'));
    assert(!crate::text::has_char("roadmaps"@, '/'));
    assert(!crate::text::has_char("roadmap.md"@, '/'));
    assert(!crate::text::has_char(".md"@, '/'));
    match t {
        crate::model::TargetView::Task { slug } => {
            let leaf = slug + ".md"@;
            lemma_no_slash_concat(slug, ".md"@);
            let path = task_path_spec(project, slug);
            assert(path =~= pj + slash + (project + slash + ("tasks"@ + slash + leaf)));
            lemma_segments_single(leaf);
            lemma_segments_cons("tasks"@, leaf);
            lemma_segments_cons(project, "tasks"@ + slash + leaf);
            lemma_segments_cons(pj, project + slash + ("tasks"@ + slash + leaf));
            let segs = segments(path);
            assert(segs =~= seq![pj, project, "tasks"@, leaf]);
            assert(segs[2] != "archive"@);
            assert(segs.subrange(2, 4) =~= seq!["tasks"@, leaf]);
            assert(segs.subrange(2, 4)[0] != "reviews"@);
            lemma_md_stem(slug);
        },
        crate::model::TargetView::Roadmap { roadmap } => {
            let path = roadmap_path_spec(project, roadmap);
            let tail = "roadmaps"@ + slash + (roadmap + slash + "roadmap.md"@);
            assert(path =~= pj + slash + (project + slash + tail));
            lemma_segments_single("roadmap.md"@);
            lemma_segments_cons(roadmap, "roadmap.md"@);
            lemma_segments_cons("roadmaps"@, roadmap + slash + "roadmap.md"@);
            lemma_segments_cons(project, tail);
            lemma_segments_cons(pj, project + slash + tail);
            let segs = segments(path);
            assert(segs =~= seq![pj, project, "roadmaps"@, roadmap, "roadmap.md"@]);
            assert(segs[2] != "archive"@);
            assert(segs.subrange(2, 5) =~= seq!["roadmaps"@, roadmap, "roadmap.md"@]);
            assert(segs.subrange(2, 5)[0] != "tasks"@);
            assert(segs.subrange(2, 5)[0] != "reviews"@);
        },
        crate::model::TargetView::Phase { roadmap, stem } => {
            let leaf = stem + ".md"@;
            lemma_no_slash_concat(stem, ".md"@);
            let path = phase_path_spec(project, roadmap, stem);
            let tail = "roadmaps"@ + slash + (roadmap + slash + leaf);
            assert(path =~= pj + slash + (project + slash + tail));
            lemma_segments_single(leaf);
            lemma_segments_cons(roadmap, leaf);
            lemma_segments_cons("roadmaps"@, roadmap + slash + leaf);
            lemma_segments_cons(project, tail);
            lemma_segments_cons(pj, project + slash + tail);
            let segs = segments(path);
            assert(segs =~= seq![pj, project, "roadmaps"@, roadmap, leaf]);
            assert(segs[2] != "archive"@);
            assert(segs.subrange(2, 5) =~= seq!["roadmaps"@, roadmap, leaf]);
            assert(segs.subrange(2, 5)[0] != "tasks"@);
            assert(segs.subrange(2, 5)[0] != "reviews"@);
            if leaf == "roadmap.md"@ {
                assert(leaf.subrange(0, stem.len() as int) =~= stem);
                assert("roadmap.md"@.subrange(0, 7) =~= "roadmap"@);
                assert(false);
            }
            lemma_md_stem(stem);
        },
    }
}

} // verus!
