//! Review documents: parsing references to what is reviewed, and creating,
//! commenting on, submitting, moving through their life, listing and
//! deleting the reviews stored under a project's `reviews/` directory.
//!
//! A review goes `draft` -> `submitted` -> `addressed` or `dismissed`.
use vstd::prelude::*;

use crate::error::{Error, Result};
use crate::io::{load_review, review_at, write_review};
use crate::model::{
    Anchor, AnchorView, CommentDoc, CommentDocKind, CommentDocView, CommentView, DocView, Document,
    Review, ReviewComment, ReviewCommentStatus, ReviewState, ReviewTarget, ReviewTargetKind,
    ReviewView, TargetView, Timestamp, Verdict, comment_views, opt_anchor_view, opt_doc_view,
    target_kind,
};
use crate::ops::phase::{md_ext, md_trim, md_trimmed, resolve_phase_stem, resolves_stem};
use crate::ops::update::BodyUpdate;
use crate::paths::{
    phase_path, phase_path_spec, project_md_path, project_md_spec, review_path, review_path_spec,
    reviews_dir, reviews_dir_spec, roadmap_path, roadmap_path_spec, task_path, task_path_spec,
};
use crate::store::{listed, DirEntryKind, EntryView, Files, MemoryStore};
use crate::text::{
    cat, cat3, contains_char, ends_with, has_char, is_suffix, lemma_seq_lt_asym, lemma_seq_lt_trans, owned,
    seq_lt, split_once, split_once_char, str_eq, str_lt,
};

verus! {

/// What parsing review target reference `reference` gives: `roadmap/<slug>`,
/// `task/<slug>` or `phase/<roadmap>/<stem-or-number>`, the phase resolved
/// as everywhere else; anything else is
/// [`Error::InvalidReviewTargetRef`].
pub open spec fn parses_target(m: Files, project: Seq<char>, reference: Seq<char>, r: Result<ReviewTarget>) -> bool {
    let invalid = (r matches Err(Error::InvalidReviewTargetRef(x)) && x@ == reference);
    match split_once(reference, '/') {
        None => invalid,
        Some(parts) => {
            let kind = parts.0;
            let rest = parts.1;
            if kind == "roadmap"@ && rest.len() > 0 && !has_char(rest, '/') {
                r matches Ok(t) && t@ == TargetView::Roadmap { roadmap: rest }
            } else if kind == "task"@ && rest.len() > 0 && !has_char(rest, '/') {
                r matches Ok(t) && t@ == TargetView::Task { slug: rest }
            } else if kind == "phase"@ {
                match split_once(rest, '/') {
                    None => invalid,
                    Some(p2) => if p2.0.len() == 0 || p2.1.len() == 0 || has_char(p2.1, '/') {
                        invalid
                    } else {
                        stem_then(m, project, p2.0, p2.1, r)
                    },
                }
            } else {
                invalid
            }
        },
    }
}

/// A phase target of `roadmap` whose phase `phase` resolves, or the
/// resolution's error.
pub open spec fn stem_then(m: Files, project: Seq<char>, roadmap: Seq<char>, phase: Seq<char>, r: Result<ReviewTarget>) -> bool {
    exists|rs: Result<String>|
        #[trigger] resolves_stem(m, project, roadmap, phase, rs) && match rs {
            Ok(st) => r matches Ok(t) && t@ == TargetView::Phase { roadmap, stem: st@ },
            Err(e) => r == Err::<ReviewTarget, Error>(e),
        }
}

/// Parses a review target reference; see [`parses_target`]. The target's
/// existence is not checked here.
pub fn parse_review_target_ref(store: &MemoryStore, project: &str, reference: &str) -> (r: Result<
    ReviewTarget,
>)
    ensures
        parses_target(store.files(), project@, reference@, r),
{
    proof {
        reveal_strlit("roadmap");
        reveal_strlit("task");
        reveal_strlit("phase");
    }
    let (kind, rest) = match split_once_char(reference, '/') {
        Some(p) => p,
        None => return Err(Error::InvalidReviewTargetRef(owned(reference))),
    };
    let rest_ok = rest.unicode_len() > 0 && !contains_char(rest, '/');
    if str_eq(kind, "roadmap") && rest_ok {
        return Ok(ReviewTarget::Roadmap { roadmap: owned(rest) });
    }
    if str_eq(kind, "task") && rest_ok {
        return Ok(ReviewTarget::Task { slug: owned(rest) });
    }
    if str_eq(kind, "phase") {
        let (roadmap, phase) = match split_once_char(rest, '/') {
            Some(p) => p,
            None => return Err(Error::InvalidReviewTargetRef(owned(reference))),
        };
        if roadmap.unicode_len() == 0 || phase.unicode_len() == 0 || contains_char(phase, '/') {
            return Err(Error::InvalidReviewTargetRef(owned(reference)));
        }
        let rs = resolve_phase_stem(store, project, roadmap, phase);
        assert(resolves_stem(store.files(), project@, roadmap@, phase@, rs));
        return match rs {
            Ok(stem) => Ok(ReviewTarget::Phase { roadmap: owned(roadmap), stem }),
            Err(e) => Err(e),
        };
    }
    Err(Error::InvalidReviewTargetRef(owned(reference)))
}

/// What parsing comment document reference `reference` gives:
/// `phase/<stem-or-number>`, resolved against `roadmap`; anything else is
/// [`Error::InvalidCommentDocRef`].
pub open spec fn parses_comment_doc(
    m: Files,
    project: Seq<char>,
    roadmap: Seq<char>,
    reference: Seq<char>,
    r: Result<CommentDoc>,
) -> bool {
    let invalid = (r matches Err(Error::InvalidCommentDocRef(x)) && x@ == reference);
    match split_once(reference, '/') {
        None => invalid,
        Some(parts) => if parts.0 != "phase"@ || parts.1.len() == 0 || has_char(parts.1, '/') {
            invalid
        } else {
            doc_stem_then(m, project, roadmap, parts.1, r)
        },
    }
}

/// A phase document whose `phase` resolves in `roadmap`, or the
/// resolution's error.
pub open spec fn doc_stem_then(m: Files, project: Seq<char>, roadmap: Seq<char>, phase: Seq<char>, r: Result<CommentDoc>) -> bool {
    exists|rs: Result<String>|
        #[trigger] resolves_stem(m, project, roadmap, phase, rs) && match rs {
            Ok(st) => r matches Ok(d) && d@ == CommentDocView { kind: CommentDocKind::Phase, stem: st@ },
            Err(e) => r == Err::<CommentDoc, Error>(e),
        }
}

/// Parses a comment document reference; see [`parses_comment_doc`].
pub fn parse_comment_doc_ref(store: &MemoryStore, project: &str, roadmap: &str, reference: &str) -> (r:
    Result<CommentDoc>)
    ensures
        parses_comment_doc(store.files(), project@, roadmap@, reference@, r),
{
    proof {
        reveal_strlit("phase");
    }
    let (kind, phase) = match split_once_char(reference, '/') {
        Some(p) => p,
        None => return Err(Error::InvalidCommentDocRef(owned(reference))),
    };
    if !str_eq(kind, "phase") || phase.unicode_len() == 0 || contains_char(phase, '/') {
        return Err(Error::InvalidCommentDocRef(owned(reference)));
    }
    let rs = resolve_phase_stem(store, project, roadmap, phase);
    assert(resolves_stem(store.files(), project@, roadmap@, phase@, rs));
    match rs {
        Ok(stem) => Ok(CommentDoc { kind: CommentDocKind::Phase, stem }),
        Err(e) => Err(e),
    }
}

/// The path of the file a target names.
pub open spec fn target_path(project: Seq<char>, t: TargetView) -> Seq<char> {
    match t {
        TargetView::Roadmap { roadmap } => roadmap_path_spec(project, roadmap),
        TargetView::Phase { roadmap, stem } => phase_path_spec(project, roadmap, stem),
        TargetView::Task { slug } => task_path_spec(project, slug),
    }
}

/// How a missing target is described.
pub open spec fn missing_target(t: TargetView) -> Seq<char> {
    match t {
        TargetView::Roadmap { roadmap } => "roadmap '"@ + roadmap + "'"@,
        TargetView::Phase { roadmap, stem } => "phase '"@ + stem + "' in roadmap '"@ + roadmap + "'"@,
        TargetView::Task { slug } => "task '"@ + slug + "'"@,
    }
}

/// Ok when the target's file exists, [`Error::ReviewTargetMissing`] when not.
fn validate_target_exists(store: &MemoryStore, project: &str, target: &ReviewTarget) -> (r: Result<()>)
    ensures
        store.files().contains_key(target_path(project@, target@)) ==> r is Ok,
        !store.files().contains_key(target_path(project@, target@)) ==> (r matches Err(
            Error::ReviewTargetMissing(msg),
        ) && msg@ == missing_target(target@)),
{
    match target {
        ReviewTarget::Roadmap { roadmap } => {
            if !store.file_exists(&roadmap_path(project, roadmap.as_str())) {
                return Err(Error::ReviewTargetMissing(cat3("roadmap '", roadmap.as_str(), "'")));
            }
        },
        ReviewTarget::Phase { roadmap, stem } => {
            if !store.file_exists(&phase_path(project, roadmap.as_str(), stem.as_str())) {
                let mut s = cat3("phase '", stem.as_str(), "' in roadmap '");
                s.append(roadmap.as_str());
                s.append("'");
                return Err(Error::ReviewTargetMissing(s));
            }
        },
        ReviewTarget::Task { slug } => {
            if !store.file_exists(&task_path(project, slug.as_str())) {
                return Err(Error::ReviewTargetMissing(cat3("task '", slug.as_str(), "'")));
            }
        },
    }
    Ok(())
}

/// What checking comment document `d` against target `t` gives: only a
/// roadmap review may scope a comment, and only to one of its phases.
pub open spec fn comment_doc_ok(m: Files, project: Seq<char>, t: TargetView, d: CommentDocView, r: Result<()>) -> bool {
    match t {
        TargetView::Roadmap { roadmap } => if m.contains_key(phase_path_spec(project, roadmap, d.stem)) {
            r is Ok
        } else {
            r matches Err(Error::CommentDocOutOfScope(msg)) && msg@ == "phase '"@ + d.stem
                + "' is not part of roadmap '"@ + roadmap + "'"@
        },
        _ => r matches Err(Error::CommentDocNotApplicable),
    }
}

pub fn validate_comment_doc(store: &MemoryStore, project: &str, target: &ReviewTarget, doc: &CommentDoc) -> (r:
    Result<()>)
    ensures
        comment_doc_ok(store.files(), project@, target@, doc@, r),
{
    match target {
        ReviewTarget::Roadmap { roadmap } => {
            if !store.file_exists(&phase_path(project, roadmap.as_str(), doc.stem.as_str())) {
                let mut s = cat3("phase '", doc.stem.as_str(), "' is not part of roadmap '");
                s.append(roadmap.as_str());
                s.append("'");
                return Err(Error::CommentDocOutOfScope(s));
            }
            Ok(())
        },
        _ => Err(Error::CommentDocNotApplicable),
    }
}

/// Whether the file `name` in a project's review directory is a review: a
/// markdown file.
pub open spec fn is_review_file(m: Files, project: Seq<char>, name: Seq<char>) -> bool {
    listed(m, reviews_dir_spec(project), name, DirEntryKind::File) && is_suffix(md_ext(), name)
}

/// The id and document of the review file `name`.
pub open spec fn review_item(m: Files, project: Seq<char>, name: Seq<char>) -> (
    Seq<char>,
    DocView<ReviewView>,
) {
    (
        md_trimmed(name),
        review_at(m, review_path_spec(project, md_trimmed(name))).unwrap(),
    )
}

/// Whether every review file holds a review document.
pub open spec fn all_review_docs(
    m: Files,
    project: Seq<char>,
    names: Seq<Seq<char>>,
) -> bool {
    forall|i: int|
        0 <= i < names.len() ==> (#[trigger] review_at(
            m,
            review_path_spec(project, md_trimmed(names[i])),
        )) is Some
}

/// Whether `names` lists the review files of a project, each once.
pub open spec fn review_files(
    m: Files,
    project: Seq<char>,
    names: Seq<Seq<char>>,
) -> bool {
    names.no_duplicates() && forall|x: Seq<char>|
        names.contains(x) <==> is_review_file(m, project, x)
}

/// The ids and documents of a list of reviews.
pub open spec fn review_views(v: Seq<(String, Document<Review>)>) -> Seq<(Seq<char>, DocView<ReviewView>)> {
    v.map_values(|x: (String, Document<Review>)| (x.0@, x.1@))
}

/// Whether reviews are in order of their ids.
pub open spec fn by_id(v: Seq<(Seq<char>, DocView<ReviewView>)>) -> bool {
    forall|i: int, j: int| 0 <= i < j < v.len() ==> !seq_lt((#[trigger] v[j]).0, (#[trigger] v[i]).0)
}

/// Whether every review file of a project holds a review document.
pub open spec fn reviews_ok(m: Files, project: Seq<char>) -> bool {
    forall|name: Seq<char>|
        is_review_file(m, project, name) ==> (#[trigger] review_at(
            m,
            review_path_spec(project, md_trimmed(name)),
        )) is Some
}

/// Whether `x` is the slug and document of one of a project's review files.
pub open spec fn is_review_item(
    m: Files,
    project: Seq<char>,
    x: (Seq<char>, DocView<ReviewView>),
) -> bool {
    exists|name: Seq<char>|
        is_review_file(m, project, name) && #[trigger] review_item(m, project, name)
            == x
}

/// What a listing of a project's reviews gives on a store: its reviews ordered
/// by id, each with its id, each review file once.
pub open spec fn lists_reviews(
    m: Files,
    project: Seq<char>,
    r: Result<Vec<(String, Document<Review>)>>,
) -> bool {
    &&& !m.contains_key(project_md_spec(project)) ==> (r matches Err(
        Error::ProjectNotFound(n),
    ) && n@ == project)
    &&& m.contains_key(project_md_spec(project)) && !reviews_ok(m, project) ==> (
    r matches Err(e) && (e is ReviewNotFound || e is FrontmatterParse))
    &&& m.contains_key(project_md_spec(project)) && reviews_ok(m, project) ==> (
    r matches Ok(v) && by_id(review_views(v@)) && exists|names: Seq<Seq<char>>|
        review_files(m, project, names) && review_views(v@).to_multiset() == names.map_values(
            |n: Seq<char>| review_item(m, project, n),
        ).to_multiset())
}

/// The reviews a listing returns are exactly the project's review items.
pub proof fn lemma_listed_reviews(
    m: Files,
    project: Seq<char>,
    v: Seq<(Seq<char>, DocView<ReviewView>)>,
    names: Seq<Seq<char>>,
)
    requires
        review_files(m, project, names),
        v.to_multiset() == names.map_values(|n: Seq<char>| review_item(m, project, n)).to_multiset(),
    ensures
        forall|x: (Seq<char>, DocView<ReviewView>)| v.contains(x) <==> is_review_item(m, project, x),
{
    let f = |n: Seq<char>| review_item(m, project, n);
    let w = names.map_values(f);
    assert forall|x: (Seq<char>, DocView<ReviewView>)| v.contains(x) <==> is_review_item(m, project, x) by {
        vstd::seq_lib::to_multiset_contains(v, x);
        vstd::seq_lib::to_multiset_contains(w, x);
        if w.contains(x) {
            let k = choose|k: int| 0 <= k < w.len() && w[k] == x;
            assert(names.contains(names[k]));
            assert(review_item(m, project, names[k]) == x);
        }
        if is_review_item(m, project, x) {
            let name = choose|name: Seq<char>| is_review_file(m, project, name) && #[trigger] review_item(m, project, name) == x;
            assert(names.contains(name));
            let k = choose|k: int| 0 <= k < names.len() && names[k] == name;
            assert(w[k] == x);
        }
    }
}

fn insert_by_id(out: &mut Vec<(String, Document<Review>)>, x: (String, Document<Review>))
    requires
        by_id(review_views(old(out)@)),
    ensures
        by_id(review_views(final(out)@)),
        review_views(final(out)@).to_multiset() == review_views(old(out)@).to_multiset().insert(
            (x.0@, x.1@),
        ),
{
    let ghost o = review_views(out@);
    let ghost xv = (x.0@, x.1@);
    let mut p: usize = 0;
    let mut done = false;
    while p < out.len() && !done
        invariant
            p <= out.len(),
            o == review_views(out@),
            xv.0 == x.0@,
            forall|k: int| 0 <= k < p ==> !seq_lt(xv.0, (#[trigger] o[k]).0),
            done ==> p < out.len() && seq_lt(xv.0, o[p as int].0),
        decreases out.len() - p, if done { 0int } else { 1int },
    {
        assert(o[p as int] == (out[p as int].0@, out[p as int].1@));
        if str_lt(x.0.as_str(), out[p].0.as_str()) {
            done = true;
        } else {
            p = p + 1;
        }
    }
    out.insert(p, x);
    let ghost n = review_views(out@);
    assert(n =~= o.insert(p as int, xv));
    proof {
        vstd::seq_lib::to_multiset_insert(o, p as int, xv);
        assert forall|i: int, j: int| 0 <= i < j < n.len() implies !seq_lt((#[trigger] n[j]).0, (#[trigger] n[i]).0) by {
            if j < p {
                assert(n[i] == o[i] && n[j] == o[j]);
            } else if j == p {
                assert(n[i] == o[i]);
            } else if i == p {
                assert(n[j] == o[j - 1]);
                if seq_lt(o[j - 1].0, xv.0) {
                    if j - 1 > p {
                        assert(!seq_lt(o[j - 1].0, o[p as int].0));
                        lemma_seq_lt_trans(o[j - 1].0, xv.0, o[p as int].0);
                    } else {
                        lemma_seq_lt_asym(xv.0, o[p as int].0);
                    }
                }
            } else if i < p {
                assert(n[i] == o[i] && n[j] == o[j - 1]);
            } else {
                assert(n[i] == o[i - 1] && n[j] == o[j - 1]);
            }
        }
    }
}

/// The reviews of a project ordered by id, each with its id.
pub fn list_reviews(store: &MemoryStore, project: &str) -> (r: Result<
    Vec<(String, Document<Review>)>,
>)
    ensures
        lists_reviews(store.files(), project@, r),
{
    if !store.file_exists(&project_md_path(project)) {
        return Err(Error::ProjectNotFound(owned(project)));
    }
    let dir = reviews_dir(project);
    let entries = store.list(&dir);
    let ghost m = store.files();
    let ghost item = |n: Seq<char>| review_item(m, project@, n);
    let ghost mut names: Seq<Seq<char>> = Seq::empty();
    let mut out: Vec<(String, Document<Review>)> = Vec::new();
    let mut i: usize = 0;
    proof {
        reveal_strlit(".md");
        assert(".md"@ =~= md_ext());
    }
    assert(review_views(out@) =~= names.map_values(item));
    while i < entries.len()
        invariant
            i <= entries.len(),
            m == store.files(),
            m.contains_key(project_md_spec(project@)),
            item == (|n: Seq<char>| review_item(m, project@, n)),
            ".md"@ == md_ext(),
            forall|a: int| 0 <= a < entries.len() ==> listed(m, reviews_dir_spec(project@), #[trigger] entries[a].name@, entries[a].kind),
            forall|a: int, b: int| 0 <= a < b < entries.len() ==> !(entries[a].name@ == entries[b].name@ && entries[a].kind == entries[b].kind),
            forall|n: Seq<char>, k: DirEntryKind| listed(m, reviews_dir_spec(project@), n, k) ==> exists|a: int| 0 <= a < entries.len() && entries[a].name@ == n && entries[a].kind == k,
            names.no_duplicates(),
            forall|k: int| 0 <= k < names.len() ==> is_review_file(m, project@, #[trigger] names[k]),
            forall|k: int| 0 <= k < names.len() ==> exists|a: int| 0 <= a < i && entries[a].name@ == #[trigger] names[k] && entries[a].kind == DirEntryKind::File,
            forall|a: int| 0 <= a < i && is_review_file(m, project@, #[trigger] entries[a].name@) && entries[a].kind == DirEntryKind::File ==> names.contains(entries[a].name@),
            all_review_docs(m, project@, names),
            by_id(review_views(out@)),
            review_views(out@).to_multiset() == names.map_values(item).to_multiset(),
        decreases entries.len() - i,
    {
        let name = entries[i].name.as_str();
        if entries[i].kind == DirEntryKind::File && ends_with(name, ".md") {
            let stem = md_trim(name);
            let ghost nm = entries[i as int].name@;
            assert(is_review_file(m, project@, nm));
            proof {
                if names.contains(nm) {
                    let k = choose|k: int| 0 <= k < names.len() && names[k] == nm;
                    let a = choose|a: int| 0 <= a < i && entries[a].name@ == names[k] && entries[a].kind == DirEntryKind::File;
                    assert(false);
                }
            }
            match load_review(store, project, stem) {
                Ok(doc) => {
                    let ghost old_names = names;
                    let ghost ov = review_views(out@);
                    proof {
                        names = names.push(nm);
                        assert(names.map_values(item) =~= old_names.map_values(item).push(item(nm)));
                        vstd::seq_lib::to_multiset_build(old_names.map_values(item), item(nm));
                        assert(item(nm) == (stem@, doc@));
                        assert forall|k: int| 0 <= k < names.len() implies (#[trigger] review_at(m, review_path_spec(project@, md_trimmed(names[k])))) is Some by {
                            if k < old_names.len() {
                                assert(names[k] == old_names[k]);
                            }
                        }
                        assert forall|a: int, b: int| 0 <= a < b < names.len() implies names[a] != names[b] by {
                            if b == names.len() - 1 {
                                assert(names[a] == old_names[a]);
                                assert(old_names.contains(old_names[a]));
                            } else {
                                assert(names[a] == old_names[a] && names[b] == old_names[b]);
                            }
                        }
                        assert forall|k: int| 0 <= k < names.len() implies exists|a: int| 0 <= a < i + 1 && entries[a].name@ == #[trigger] names[k] && entries[a].kind == DirEntryKind::File by {
                            if k < old_names.len() {
                                assert(names[k] == old_names[k]);
                            } else {
                                assert(entries[i as int].name@ == names[k]);
                            }
                        }
                        assert forall|a: int| 0 <= a < i + 1 && is_review_file(m, project@, #[trigger] entries[a].name@) && entries[a].kind == DirEntryKind::File implies names.contains(entries[a].name@) by {
                            if a < i {
                                let k = choose|k: int| 0 <= k < old_names.len() && old_names[k] == entries[a].name@;
                                assert(names[k] == entries[a].name@);
                            } else {
                                assert(names[old_names.len() as int] == nm);
                            }
                        }
                    }
                    insert_by_id(&mut out, (owned(stem), doc));
                },
                Err(e) => {
                    assert(review_at(m, review_path_spec(project@, md_trimmed(nm))) is None);
                    return Err(e);
                },
            }
        } else {
            proof {
                if entries[i as int].kind == DirEntryKind::File {
                    assert(!is_review_file(m, project@, entries[i as int].name@));
                }
            }
        }
        i = i + 1;
    }
    proof {
        assert forall|x: Seq<char>| names.contains(x) <==> is_review_file(m, project@, x) by {
            if is_review_file(m, project@, x) {
                let a = choose|a: int| 0 <= a < entries.len() && entries[a].name@ == x && entries[a].kind == DirEntryKind::File;
                assert(names.contains(entries[a].name@));
            }
            if names.contains(x) {
                let k = choose|k: int| 0 <= k < names.len() && names[k] == x;
                assert(is_review_file(m, project@, names[k]));
            }
        }
        assert(review_files(m, project@, names));
        assert forall|name: Seq<char>| is_review_file(m, project@, name) implies (#[trigger] review_at(
            m,
            review_path_spec(project@, md_trimmed(name)),
        )) is Some by {
            assert(names.contains(name));
            let k = choose|k: int| 0 <= k < names.len() && names[k] == name;
            assert(review_at(m, review_path_spec(project@, md_trimmed(names[k]))) is Some);
        }
    }
    Ok(out)
}




/// Which reviews a listing keeps; every criterion that is set must hold.
#[derive(Debug, Clone, Default)]
pub struct ReviewFilter {
    /// Only reviews of exactly this target.
    pub target: Option<ReviewTarget>,
    /// Only reviews whose target has this kind.
    pub target_kind: Option<ReviewTargetKind>,
    /// Only reviews in this state.
    pub state: Option<ReviewState>,
    /// Only reviews with this verdict (a draft has none).
    pub verdict: Option<Verdict>,
    /// Only reviews by this author.
    pub author: Option<String>,
}

/// Whether review `r` passes filter `f`.
pub open spec fn review_matches_spec(r: ReviewView, f: ReviewFilter) -> bool {
    &&& (f.target matches Some(t) ==> r.target == t@)
    &&& (f.target_kind matches Some(k) ==> target_kind(r.target) == k)
    &&& (f.state matches Some(s) ==> r.state == s)
    &&& (f.verdict matches Some(v) ==> r.verdict == Some(v))
    &&& (f.author matches Some(a) ==> r.author == a@)
}

fn same_target(a: &ReviewTarget, b: &ReviewTarget) -> (r: bool)
    ensures
        r == (a@ == b@),
{
    match (a, b) {
        (ReviewTarget::Roadmap { roadmap: x }, ReviewTarget::Roadmap { roadmap: y }) => str_eq(
            x.as_str(),
            y.as_str(),
        ),
        (ReviewTarget::Phase { roadmap: x, stem: s }, ReviewTarget::Phase { roadmap: y, stem: t }) => {
            str_eq(x.as_str(), y.as_str()) && str_eq(s.as_str(), t.as_str())
        },
        (ReviewTarget::Task { slug: x }, ReviewTarget::Task { slug: y }) => str_eq(x.as_str(), y.as_str()),
        _ => false,
    }
}

/// Whether `review` passes `filter`; see [`review_matches_spec`].
pub fn review_matches(review: &Review, filter: &ReviewFilter) -> (r: bool)
    ensures
        r == review_matches_spec(review@, *filter),
{
    let t_ok = match &filter.target {
        Some(t) => same_target(&review.target, t),
        None => true,
    };
    let k_ok = match filter.target_kind {
        Some(k) => review.target.kind() == k,
        None => true,
    };
    let s_ok = match filter.state {
        Some(s) => review.state == s,
        None => true,
    };
    let v_ok = match filter.verdict {
        Some(v) => match review.verdict {
            Some(w) => w == v,
            None => false,
        },
        None => true,
    };
    let a_ok = match &filter.author {
        Some(a) => str_eq(review.author.as_str(), a.as_str()),
        None => true,
    };
    t_ok && k_ok && s_ok && v_ok && a_ok
}

/// The reviews of `v` that pass filter `f`, in order.
pub open spec fn kept_reviews(v: Seq<(Seq<char>, DocView<ReviewView>)>, f: ReviewFilter) -> Seq<
    (Seq<char>, DocView<ReviewView>),
>
    decreases v.len(),
{
    if v.len() == 0 {
        Seq::empty()
    } else {
        let rest = kept_reviews(v.drop_last(), f);
        if review_matches_spec(v.last().1.frontmatter, f) {
            rest.push(v.last())
        } else {
            rest
        }
    }
}

/// The reviews that pass `filter`, in their order.
pub fn filter_reviews(reviews: Vec<(String, Document<Review>)>, filter: &ReviewFilter) -> (r: Vec<
    (String, Document<Review>),
>)
    ensures
        review_views(r@) == kept_reviews(review_views(reviews@), *filter),
{
    let ghost all = review_views(reviews@);
    let mut out: Vec<(String, Document<Review>)> = Vec::new();
    let mut reviews = reviews;
    let mut i: usize = 0;
    while i < reviews.len()
        invariant
            i <= reviews.len(),
            all == review_views(reviews@),
            review_views(out@) == kept_reviews(all.take(i as int), *filter),
        decreases reviews.len() - i,
    {
        assert(all.take(i + 1).drop_last() =~= all.take(i as int));
        assert(all.take(i + 1).last() == all[i as int]);
        assert(all[i as int] == (reviews[i as int].0@, reviews[i as int].1@));
        if review_matches(&reviews[i].1.frontmatter, filter) {
            let ghost o = review_views(out@);
            let x = (reviews[i].0.clone(), reviews[i].1.duplicate());
            out.push(x);
            assert(review_views(out@) =~= o.push(all[i as int]));
        }
        i = i + 1;
    }
    assert(all.take(reviews.len() as int) =~= all);
    out
}

/// The filter of the change-request queue: submitted reviews that request
/// changes.
pub open spec fn requests_filter() -> ReviewFilter {
    ReviewFilter {
        target: None,
        target_kind: None,
        state: Some(ReviewState::Submitted),
        verdict: Some(Verdict::RequestChanges),
        author: None,
    }
}

/// What [`change_requests`] gives on files `m`.
pub open spec fn change_requests_post(m: Files, project: Seq<char>, r: Result<Vec<(String, Document<Review>)>>) -> bool {
    exists|l: Result<Vec<(String, Document<Review>)>>|
        #[trigger] lists_reviews(m, project, l) && match l {
            Ok(v) => r matches Ok(w) && review_views(w@) == kept_reviews(review_views(v@), requests_filter()),
            Err(e) => r == Err::<Vec<(String, Document<Review>)>, Error>(e),
        }
}

/// A project's change-request queue: its submitted reviews whose verdict is
/// `request-changes`, by id.
pub fn change_requests(store: &MemoryStore, project: &str) -> (r: Result<Vec<(String, Document<Review>)>>)
    ensures
        change_requests_post(store.files(), project@, r),
{
    let l = list_reviews(store, project);
    assert(lists_reviews(store.files(), project@, l));
    match l {
        Ok(v) => {
            let f = ReviewFilter {
                target: None,
                target_kind: None,
                state: Some(ReviewState::Submitted),
                verdict: Some(Verdict::RequestChanges),
                author: None,
            };
            Ok(filter_reviews(v, &f))
        },
        Err(e) => Err(e),
    }
}

/// Whether `r` is what loading review `id` fails with, where it fails.
pub open spec fn review_load_failed<T>(m: Files, project: Seq<char>, id: Seq<char>, r: Result<T>) -> bool {
    &&& !m.contains_key(review_path_spec(project, id)) ==> (r matches Err(Error::ReviewNotFound(n))
        && n@ == id)
    &&& m.contains_key(review_path_spec(project, id)) && review_at(m, review_path_spec(project, id))
        is None ==> (r matches Err(e) && e is FrontmatterParse)
}

/// One review by id.
pub fn get_review(store: &MemoryStore, project: &str, review_id: &str) -> (r: Result<Document<Review>>)
    ensures
        review_load_failed(store.files(), project@, review_id@, r),
        review_at(store.files(), review_path_spec(project@, review_id@)) matches Some(d) ==> (r matches Ok(
            doc,
        ) && doc@ == d),
{
    load_review(store, project, review_id)
}

/// What [`delete_review`] gives and leaves: only a draft is deleted without
/// `force`.
pub open spec fn delete_review_post(m: Files, project: Seq<char>, id: Seq<char>, force: bool, r: Result<()>, m2: Files) -> bool {
    let path = review_path_spec(project, id);
    &&& review_load_failed(m, project, id, r)
    &&& r is Err ==> m2 == m
    &&& review_at(m, path) matches Some(d) ==> if !force && d.frontmatter.state != ReviewState::Draft {
        r matches Err(Error::ReviewNotDraft(n)) && n@ == id
    } else {
        r is Ok && m2 == m.remove(path)
    }
}

/// Deletes a review; one that is no longer a draft only with `force`.
pub fn delete_review(store: &mut MemoryStore, project: &str, review_id: &str, force: bool) -> (r: Result<()>)
    ensures
        delete_review_post(old(store).files(), project@, review_id@, force, r, final(store).files()),
{
    let doc = load_review(store, project, review_id)?;
    if !force && doc.frontmatter.state != ReviewState::Draft {
        return Err(Error::ReviewNotDraft(owned(review_id)));
    }
    let path = review_path(project, review_id);
    let d = store.delete(&path);
    assert(d is Ok);
    Ok(())
}

/// A request to create a review.
#[derive(Debug, Clone)]
pub struct CreateReview<'a> {
    /// The project.
    pub project: &'a str,
    /// Who writes the review.
    pub author: &'a str,
    /// What is reviewed; it must exist.
    pub target: ReviewTarget,
    /// The summary, empty when `None`.
    pub body: Option<&'a str>,
}

/// At most this many candidate ids are tried.
pub const MAX_ID_ATTEMPTS: usize = 20;

/// A hexadecimal digit.
pub open spec fn hex_digit(d: nat) -> char {
    if d < 10 {
        (d + 48) as char
    } else {
        (d + 87) as char
    }
}

/// Four lowercase hexadecimal digits.
pub open spec fn hex4(n: u16) -> Seq<char> {
    seq![
        hex_digit((n / 4096) as nat),
        hex_digit(((n / 256) % 16) as nat),
        hex_digit(((n / 16) % 16) as nat),
        hex_digit((n % 16) as nat),
    ]
}

/// A review id: `YYYY-MM-DD-HHMM-xxxx`, the minute of `now` and four
/// hexadecimal digits of `suffix`.
pub open spec fn review_id_spec(now: Timestamp, suffix: u16) -> Seq<char> {
    now.date.iso_spec() + "-"@ + crate::model::padded(now.hour as nat, 2) + crate::model::padded(
        now.minute as nat,
        2,
    ) + "-"@ + hex4(suffix)
}

fn hex_str(d: u16) -> (s: &'static str)
    requires
        d < 16,
    ensures
        s@ == seq![hex_digit(d as nat)],
{
    proof {
        reveal_strlit("0");
        reveal_strlit("1");
        reveal_strlit("2");
        reveal_strlit("3");
        reveal_strlit("4");
        reveal_strlit("5");
        reveal_strlit("6");
        reveal_strlit("7");
        reveal_strlit("8");
        reveal_strlit("9");
        reveal_strlit("a");
        reveal_strlit("b");
        reveal_strlit("c");
        reveal_strlit("d");
        reveal_strlit("e");
        reveal_strlit("f");
    }
    if d == 0 {
        "0"
    } else if d == 1 {
        "1"
    } else if d == 2 {
        "2"
    } else if d == 3 {
        "3"
    } else if d == 4 {
        "4"
    } else if d == 5 {
        "5"
    } else if d == 6 {
        "6"
    } else if d == 7 {
        "7"
    } else if d == 8 {
        "8"
    } else if d == 9 {
        "9"
    } else if d == 10 {
        "a"
    } else if d == 11 {
        "b"
    } else if d == 12 {
        "c"
    } else if d == 13 {
        "d"
    } else if d == 14 {
        "e"
    } else {
        "f"
    }
}

/// The review id for `now` and `suffix`; see [`review_id_spec`].
pub fn generate_review_id(now: Timestamp, suffix: u16) -> (r: String)
    ensures
        r@ == review_id_spec(now, suffix),
{
    let date = now.date.to_iso();
    let h = crate::model::pad_decimal(now.hour as u64, 2);
    let mi = crate::model::pad_decimal(now.minute as u64, 2);
    let mut s = cat3(date.as_str(), "-", h.as_str());
    s.append(mi.as_str());
    s.append("-");
    let ghost before = s@;
    s.append(hex_str(suffix / 4096));
    s.append(hex_str((suffix / 256) % 16));
    s.append(hex_str((suffix / 16) % 16));
    s.append(hex_str(suffix % 16));
    assert(s@ =~= before + hex4(suffix));
    s
}

/// The first of at most [`MAX_ID_ATTEMPTS`] candidates with no review file.
pub open spec fn first_free_id(m: Files, project: Seq<char>, cands: Seq<Seq<char>>, i: int) -> bool {
    &&& 0 <= i < cands.len()
    &&& i < MAX_ID_ATTEMPTS
    &&& !m.contains_key(review_path_spec(project, cands[i]))
    &&& forall|k: int| 0 <= k < i ==> m.contains_key(review_path_spec(project, #[trigger] cands[k]))
}

/// What [`next_available_review_id`] gives: the first free candidate among
/// the first [`MAX_ID_ATTEMPTS`], or [`Error::ReviewIdExhausted`].
pub open spec fn next_id_post(m: Files, project: Seq<char>, cands: Seq<Seq<char>>, r: Result<String>) -> bool {
    &&& (exists|i: int| first_free_id(m, project, cands, i)) ==> exists|i: int|
        first_free_id(m, project, cands, i) && (r matches Ok(id) && id@ == cands[i])
    &&& (forall|k: int| 0 <= k < cands.len() && k < MAX_ID_ATTEMPTS ==> m.contains_key(
        review_path_spec(project, #[trigger] cands[k]),
    )) ==> (r matches Err(Error::ReviewIdExhausted))
}

/// The first candidate id, of at most [`MAX_ID_ATTEMPTS`], that no review
/// file holds yet.
pub fn next_available_review_id(store: &MemoryStore, project: &str, candidates: &Vec<String>) -> (r:
    Result<String>)
    ensures
        next_id_post(store.files(), project@, candidates.deep_view(), r),
{
    let ghost cv = candidates.deep_view();
    let mut i: usize = 0;
    while i < candidates.len() && i < MAX_ID_ATTEMPTS
        invariant
            i <= candidates.len(),
            i <= MAX_ID_ATTEMPTS,
            cv == candidates.deep_view(),
            forall|k: int| 0 <= k < i ==> store.files().contains_key(review_path_spec(project@, #[trigger] cv[k])),
        decreases candidates.len() - i,
    {
        assert(cv[i as int] == candidates[i as int]@);
        if !store.file_exists(&review_path(project, candidates[i].as_str())) {
            proof {
                assert(first_free_id(store.files(), project@, cv, i as int));
                assert forall|j: int| first_free_id(store.files(), project@, cv, j) implies j == i by {
                    if j < i {
                        assert(store.files().contains_key(review_path_spec(project@, cv[j])));
                    } else if j > i {
                        assert(store.files().contains_key(review_path_spec(project@, cv[i as int])));
                    }
                }
            }
            return Ok(candidates[i].clone());
        }
        i = i + 1;
    }
    proof {
        assert forall|j: int| !first_free_id(store.files(), project@, cv, j) by {
            if 0 <= j < cv.len() && j < MAX_ID_ATTEMPTS {
                assert(store.files().contains_key(review_path_spec(project@, cv[j])));
            }
        }
    }
    Err(Error::ReviewIdExhausted)
}

/// A new draft review's document.
pub open spec fn new_review_doc(
    id: Seq<char>,
    author: Seq<char>,
    target: TargetView,
    now: Timestamp,
    body: Option<&str>,
) -> DocView<ReviewView> {
    DocView {
        frontmatter: ReviewView {
            id,
            author,
            target,
            state: ReviewState::Draft,
            verdict: None,
            created: now,
            submitted: None,
            created_commit: None,
            comments: Seq::empty(),
        },
        body: match body {
            Some(b) => b@,
            None => Seq::empty(),
        },
    }
}

/// The candidate ids for `now` and `suffixes`.
pub open spec fn candidate_ids(now: Timestamp, suffixes: Seq<u16>) -> Seq<Seq<char>> {
    suffixes.map_values(|x: u16| review_id_spec(now, x))
}

/// What [`create_review_at`] gives and leaves.
pub open spec fn create_review_post(
    m: Files,
    req: CreateReview,
    now: Timestamp,
    suffixes: Seq<u16>,
    r: Result<Document<Review>>,
    m2: Files,
) -> bool {
    let project = req.project@;
    let cands = candidate_ids(now, suffixes);
    &&& r is Err ==> m2 == m
    &&& !m.contains_key(project_md_spec(project)) ==> (r matches Err(Error::ProjectNotFound(n))
        && n@ == project)
    &&& m.contains_key(project_md_spec(project)) && !m.contains_key(target_path(project, req.target@))
        ==> (r matches Err(Error::ReviewTargetMissing(msg)) && msg@ == missing_target(req.target@))
    &&& m.contains_key(project_md_spec(project)) && m.contains_key(target_path(project, req.target@))
        ==> {
        &&& (forall|k: int| 0 <= k < cands.len() && k < MAX_ID_ATTEMPTS ==> m.contains_key(
            review_path_spec(project, #[trigger] cands[k]),
        )) ==> (r matches Err(Error::ReviewIdExhausted))
        &&& (exists|i: int| first_free_id(m, project, cands, i)) ==> exists|i: int|
            first_free_id(m, project, cands, i) && (r matches Ok(d) && d@ == new_review_doc(
                cands[i],
                req.author@,
                req.target@,
                now,
                req.body,
            ) && m2 == m.insert(review_path_spec(project, cands[i]), EntryView::Review(d@)))
    }
}

/// Creates a draft review of an existing item at moment `now`. Its id is the
/// first free one among the ids of `now` with each of `suffixes` in turn.
/// A store held in memory has no history, so no creating commit is recorded.
pub fn create_review_at(store: &mut MemoryStore, req: CreateReview, now: Timestamp, suffixes: &Vec<u16>) -> (r:
    Result<Document<Review>>)
    ensures
        create_review_post(old(store).files(), req, now, suffixes@, r, final(store).files()),
{
    let ghost m = store.files();
    let CreateReview { project, author, target, body } = req;
    if !store.file_exists(&project_md_path(project)) {
        return Err(Error::ProjectNotFound(owned(project)));
    }
    validate_target_exists(store, project, &target)?;
    let mut cands: Vec<String> = Vec::new();
    let mut i: usize = 0;
    while i < suffixes.len()
        invariant
            i <= suffixes.len(),
            cands.deep_view() == candidate_ids(now, suffixes@).take(i as int),
        decreases suffixes.len() - i,
    {
        let ghost c0 = cands.deep_view();
        let id = generate_review_id(now, suffixes[i]);
        cands.push(id);
        assert(cands.deep_view() =~= c0.push(review_id_spec(now, suffixes[i as int])));
        assert(candidate_ids(now, suffixes@).take(i + 1) =~= candidate_ids(now, suffixes@).take(i as int).push(review_id_spec(now, suffixes[i as int])));
        i = i + 1;
    }
    assert(candidate_ids(now, suffixes@).take(suffixes.len() as int) =~= candidate_ids(now, suffixes@));
    let id = next_available_review_id(store, project, &cands)?;
    let doc = Document {
        frontmatter: Review {
            id: id.clone(),
            author: owned(author),
            target,
            state: ReviewState::Draft,
            verdict: None,
            created: now,
            submitted: None,
            created_commit: None,
            comments: Vec::new(),
        },
        body: match body {
            Some(b) => owned(b),
            None => String::new(),
        },
    };
    assert(comment_views(doc.frontmatter.comments@) =~= Seq::<CommentView>::empty());
    write_review(store, project, id.as_str(), &doc);
    Ok(doc)
}

/// Creates a draft review of an existing item, dated with the current time;
/// see [`create_review_at`], which does the rest for whatever moment the
/// clock gave.
pub fn create_review(store: &mut MemoryStore, req: CreateReview, suffixes: &Vec<u16>) -> (r: Result<
    Document<Review>,
>)
    ensures
        exists|now: Timestamp| create_review_post(old(store).files(), req, now, suffixes@, r, final(store).files()),
        !old(store).files().contains_key(project_md_spec(req.project@)) ==> (r matches Err(
            Error::ProjectNotFound(n),
        ) && n@ == req.project@),
        old(store).files().contains_key(project_md_spec(req.project@)) && !old(store).files().contains_key(
            target_path(req.project@, req.target@),
        ) ==> (r matches Err(Error::ReviewTargetMissing(msg)) && msg@ == missing_target(req.target@)),
{
    let now = crate::clock::now_utc();
    create_review_at(store, req, now, suffixes)
}

/// A request to add a comment to a draft review.
#[derive(Debug, Clone)]
pub struct AddComment<'a> {
    /// The project.
    pub project: &'a str,
    /// The review's id.
    pub review_id: &'a str,
    /// The comment's text.
    pub body: &'a str,
    /// The phase of a roadmap review the comment is about, if any.
    pub doc: Option<CommentDoc>,
    /// Where in the target's body the comment points, kept as given.
    pub anchor: Option<Anchor>,
}

/// The largest comment id, 0 without comments.
pub open spec fn max_comment_id(cs: Seq<CommentView>) -> u32
    decreases cs.len(),
{
    if cs.len() == 0 {
        0
    } else {
        let m = max_comment_id(cs.drop_last());
        if cs.last().id > m {
            cs.last().id
        } else {
            m
        }
    }
}

fn next_comment_id(cs: &Vec<ReviewComment>) -> (n: u32)
    requires
        max_comment_id(comment_views(cs@)) < u32::MAX,
    ensures
        n == max_comment_id(comment_views(cs@)) + 1,
{
    let ghost cv = comment_views(cs@);
    let mut mx: u32 = 0;
    let mut i: usize = 0;
    while i < cs.len()
        invariant
            i <= cs.len(),
            cv == comment_views(cs@),
            mx == max_comment_id(cv.take(i as int)),
        decreases cs.len() - i,
    {
        assert(cv.take(i + 1).drop_last() =~= cv.take(i as int));
        assert(cv.take(i + 1).last() == cs[i as int]@);
        if cs[i].id > mx {
            mx = cs[i].id;
        }
        i = i + 1;
    }
    assert(cv.take(cs.len() as int) =~= cv);
    mx + 1
}

/// The review `d` with a new open comment.
pub open spec fn with_comment(d: DocView<ReviewView>, body: Seq<char>, doc: Option<CommentDoc>, anchor: Option<Anchor>) -> DocView<ReviewView> {
    DocView {
        frontmatter: ReviewView {
            comments: d.frontmatter.comments.push(
                CommentView {
                    id: (max_comment_id(d.frontmatter.comments) + 1) as u32,
                    doc: opt_doc_view(doc),
                    status: ReviewCommentStatus::Open,
                    applied_commit: None,
                    anchor: opt_anchor_view(anchor),
                    body,
                    reply: None,
                },
            ),
            ..d.frontmatter
        },
        ..d
    }
}

/// What [`add_comment`] gives and leaves.
pub open spec fn add_comment_post(m: Files, req: AddComment, r: Result<Document<Review>>, m2: Files) -> bool {
    let project = req.project@;
    let id = req.review_id@;
    let path = review_path_spec(project, id);
    &&& review_load_failed(m, project, id, r)
    &&& r is Err ==> m2 == m
    &&& review_at(m, path) matches Some(d) ==> if d.frontmatter.state != ReviewState::Draft {
        r matches Err(Error::ReviewNotDraft(n)) && n@ == id
    } else {
        &&& (req.doc matches Some(cd) ==> (r matches Err(e) ==> comment_doc_ok(m, project, d.frontmatter.target, cd@, Err(e))))
        &&& (req.doc matches Some(cd) ==> (r is Ok <==> comment_doc_ok(m, project, d.frontmatter.target, cd@, Ok(()))))
        &&& (req.doc is None ==> r is Ok)
        &&& r matches Ok(doc) ==> doc@ == with_comment(d, req.body@, req.doc, req.anchor) && m2 == m.insert(path, EntryView::Review(doc@))
    }
}

/// Adds an open comment to a draft review. Its id is one more than the
/// largest id in the review.
pub fn add_comment(store: &mut MemoryStore, req: AddComment) -> (r: Result<Document<Review>>)
    requires
        review_at(old(store).files(), review_path_spec(req.project@, req.review_id@)) matches Some(d)
            ==> (d.frontmatter.state == ReviewState::Draft && (req.doc matches Some(cd) ==> comment_doc_ok(
            old(store).files(),
            req.project@,
            d.frontmatter.target,
            cd@,
            Ok(()),
        )) ==> max_comment_id(d.frontmatter.comments) < u32::MAX),
    ensures
        add_comment_post(old(store).files(), req, r, final(store).files()),
{
    let ghost m = store.files();
    let ghost rq = req;
    let AddComment { project, review_id, body, doc, anchor } = req;
    let mut review_doc = load_review(store, project, review_id)?;
    if review_doc.frontmatter.state != ReviewState::Draft {
        return Err(Error::ReviewNotDraft(owned(review_id)));
    }
    match &doc {
        Some(d) => {
            let c = validate_comment_doc(store, project, &review_doc.frontmatter.target, d);
            match c {
                Ok(()) => {},
                Err(e) => {
                    return Err(e);
                },
            }
        },
        None => {},
    }
    let next_id = next_comment_id(&review_doc.frontmatter.comments);
    let ghost before = review_doc@;
    let c = ReviewComment {
        id: next_id,
        doc,
        status: ReviewCommentStatus::Open,
        applied_commit: None,
        anchor,
        body: owned(body),
        reply: None,
    };
    review_doc.frontmatter.comments.push(c);
    assert(comment_views(review_doc.frontmatter.comments@) =~= before.frontmatter.comments.push(c@));
    assert(review_doc@ == with_comment(before, body@, rq.doc, rq.anchor));
    write_review(store, project, review_id, &review_doc);
    Ok(review_doc)
}

/// How an update treats a comment's anchor.
#[derive(Debug, Clone, PartialEq, Default)]
pub enum AnchorUpdate {
    /// Leave it.
    #[default]
    Keep,
    /// Replace it.
    SetTo(Anchor),
    /// Remove it.
    Clear,
}

/// How an update treats a comment's document scope.
#[derive(Debug, Clone, PartialEq, Eq, Default)]
pub enum DocUpdate {
    /// Leave it.
    #[default]
    Keep,
    /// Replace it (checked against the review's target).
    SetTo(CommentDoc),
    /// Remove it.
    Clear,
}

/// A request to update one comment: its text, anchor and document while
/// the review is a draft; its status, applied commit and reply once it is
/// submitted.
#[derive(Debug, Clone, Default)]
pub struct UpdateComment<'a> {
    pub project: &'a str,
    pub review_id: &'a str,
    pub comment_id: u32,
    pub body: Option<&'a str>,
    pub anchor: AnchorUpdate,
    pub doc: DocUpdate,
    pub status: Option<ReviewCommentStatus>,
    pub applied_commit: Option<&'a str>,
    pub reply: Option<&'a str>,
}

/// Whether the request changes a comment's structure.
pub open spec fn structure_change(req: UpdateComment) -> bool {
    req.body is Some || !(req.anchor is Keep) || !(req.doc is Keep)
}

/// Whether the request changes a comment's resolution.
pub open spec fn resolution_change(req: UpdateComment) -> bool {
    req.status is Some || req.applied_commit is Some || req.reply is Some
}

/// Whether `k` is the first comment with id `cid`.
pub open spec fn first_with_id(cs: Seq<CommentView>, cid: u32, k: int) -> bool {
    &&& 0 <= k < cs.len()
    &&& cs[k].id == cid
    &&& forall|j: int| 0 <= j < k ==> (#[trigger] cs[j]).id != cid
}

/// Comment `c` after the request.
pub open spec fn comment_updated(c: CommentView, req: UpdateComment) -> CommentView {
    CommentView {
        id: c.id,
        body: match req.body {
            Some(b) => b@,
            None => c.body,
        },
        anchor: match req.anchor {
            AnchorUpdate::Keep => c.anchor,
            AnchorUpdate::SetTo(a) => Some(a@),
            AnchorUpdate::Clear => None,
        },
        doc: match req.doc {
            DocUpdate::Keep => c.doc,
            DocUpdate::SetTo(d) => Some(d@),
            DocUpdate::Clear => None,
        },
        status: match req.status {
            Some(s) => s,
            None => c.status,
        },
        applied_commit: match req.applied_commit {
            Some(s) => Some(s@),
            None => c.applied_commit,
        },
        reply: match req.reply {
            Some(s) => Some(s@),
            None => c.reply,
        },
    }
}

/// What [`update_comment`] gives and leaves.
pub open spec fn update_comment_post(m: Files, req: UpdateComment, r: Result<Document<Review>>, m2: Files) -> bool {
    let project = req.project@;
    let id = req.review_id@;
    let path = review_path_spec(project, id);
    &&& review_load_failed(m, project, id, r)
    &&& r is Err ==> m2 == m
    &&& review_at(m, path) matches Some(d) ==> {
        let cs = d.frontmatter.comments;
        let present = exists|k: int| 0 <= k < cs.len() && (#[trigger] cs[k]).id == req.comment_id;
        let draft = d.frontmatter.state == ReviewState::Draft;
        let submitted = d.frontmatter.state == ReviewState::Submitted;
        &&& !present ==> (r matches Err(Error::CommentNotFound { review_id, comment_id })
            && review_id@ == id && comment_id == req.comment_id)
        &&& present && structure_change(req) && !draft ==> (r matches Err(Error::ReviewNotDraft(n))
            && n@ == id)
        &&& present && (!structure_change(req) || draft) && resolution_change(req) && !submitted
            ==> (r matches Err(Error::ReviewNotSubmitted(n)) && n@ == id)
        &&& present && (!structure_change(req) || draft) && (!resolution_change(req) || submitted)
            ==> match req.doc {
            DocUpdate::SetTo(cd) => (r matches Err(e) ==> comment_doc_ok(m, project, d.frontmatter.target, cd@, Err(e)))
                && (r is Ok <==> comment_doc_ok(m, project, d.frontmatter.target, cd@, Ok(()))),
            _ => r is Ok,
        }
        &&& r matches Ok(doc) ==> exists|k: int|
            first_with_id(cs, req.comment_id, k) && doc@ == DocView {
                frontmatter: ReviewView {
                    comments: cs.update(k, comment_updated(cs[k], req)),
                    ..d.frontmatter
                },
                ..d
            } && m2 == m.insert(path, EntryView::Review(doc@))
    }
}

/// Updates one comment of a review, within what the review's state allows.
pub fn update_comment(store: &mut MemoryStore, req: UpdateComment) -> (r: Result<Document<Review>>)
    ensures
        update_comment_post(old(store).files(), req, r, final(store).files()),
{
    let ghost m = store.files();
    let ghost rq = req;
    let UpdateComment { project, review_id, comment_id, body, anchor, doc, status, applied_commit, reply } = req;
    let mut review_doc = load_review(store, project, review_id)?;
    let ghost d0 = review_doc@;
    let ghost cs = d0.frontmatter.comments;
    let mut k: usize = 0;
    let mut found = false;
    while k < review_doc.frontmatter.comments.len() && !found
        invariant
            k <= review_doc.frontmatter.comments.len(),
            cs == comment_views(review_doc.frontmatter.comments@),
            forall|j: int| 0 <= j < k ==> (#[trigger] cs[j]).id != comment_id,
            found ==> k < cs.len() && cs[k as int].id == comment_id,
        decreases review_doc.frontmatter.comments.len() - k, if found { 0int } else { 1int },
    {
        assert(cs[k as int] == review_doc.frontmatter.comments[k as int]@);
        if review_doc.frontmatter.comments[k].id == comment_id {
            found = true;
        } else {
            k = k + 1;
        }
    }
    if !found {
        assert forall|j: int| 0 <= j < cs.len() implies (#[trigger] cs[j]).id != comment_id by {}
        return Err(Error::CommentNotFound { review_id: owned(review_id), comment_id });
    }
    assert(first_with_id(cs, comment_id, k as int));
    let structural = body.is_some() || !matches!(anchor, AnchorUpdate::Keep) || !matches!(doc, DocUpdate::Keep);
    let resolution = status.is_some() || applied_commit.is_some() || reply.is_some();
    if structural && review_doc.frontmatter.state != ReviewState::Draft {
        return Err(Error::ReviewNotDraft(owned(review_id)));
    }
    if resolution && review_doc.frontmatter.state != ReviewState::Submitted {
        return Err(Error::ReviewNotSubmitted(owned(review_id)));
    }
    match &doc {
        DocUpdate::SetTo(d) => {
            match validate_comment_doc(store, project, &review_doc.frontmatter.target, d) {
                Ok(()) => {},
                Err(e) => {
                    return Err(e);
                },
            }
        },
        _ => {},
    }
    let old_c = review_doc.frontmatter.comments[k].duplicate();
    let new_c = ReviewComment {
        id: old_c.id,
        doc: match doc {
            DocUpdate::Keep => old_c.doc,
            DocUpdate::SetTo(d) => Some(d),
            DocUpdate::Clear => None,
        },
        status: match status {
            Some(s) => s,
            None => old_c.status,
        },
        applied_commit: match applied_commit {
            Some(s) => Some(owned(s)),
            None => old_c.applied_commit,
        },
        anchor: match anchor {
            AnchorUpdate::Keep => old_c.anchor,
            AnchorUpdate::SetTo(a) => Some(a),
            AnchorUpdate::Clear => None,
        },
        body: match body {
            Some(b) => owned(b),
            None => old_c.body,
        },
        reply: match reply {
            Some(s) => Some(owned(s)),
            None => old_c.reply,
        },
    };
    assert(new_c@ == comment_updated(cs[k as int], rq));
    review_doc.frontmatter.comments.set(k, new_c);
    assert(comment_views(review_doc.frontmatter.comments@) =~= cs.update(k as int, comment_updated(cs[k as int], rq)));
    write_review(store, project, review_id, &review_doc);
    Ok(review_doc)
}


/// The comments of `cs` whose id is not `cid`, in order.
pub open spec fn without_comment(cs: Seq<CommentView>, cid: u32) -> Seq<CommentView>
    decreases cs.len(),
{
    if cs.len() == 0 {
        Seq::empty()
    } else {
        let rest = without_comment(cs.drop_last(), cid);
        if cs.last().id != cid {
            rest.push(cs.last())
        } else {
            rest
        }
    }
}

proof fn lemma_without_comment_len(cs: Seq<CommentView>, cid: u32)
    ensures
        without_comment(cs, cid).len() <= cs.len(),
        without_comment(cs, cid).len() == cs.len() <==> forall|k: int| 0 <= k < cs.len() ==> (#[trigger] cs[k]).id != cid,
    decreases cs.len(),
{
    if cs.len() > 0 {
        lemma_without_comment_len(cs.drop_last(), cid);
        if forall|k: int| 0 <= k < cs.len() ==> (#[trigger] cs[k]).id != cid {
            assert forall|k: int| 0 <= k < cs.drop_last().len() implies (#[trigger] cs.drop_last()[k]).id != cid by {
                assert(cs.drop_last()[k] == cs[k]);
            }
        }
        if forall|k: int| 0 <= k < cs.drop_last().len() ==> (#[trigger] cs.drop_last()[k]).id != cid {
            if cs.last().id != cid {
                assert forall|k: int| 0 <= k < cs.len() implies (#[trigger] cs[k]).id != cid by {
                    if k < cs.len() - 1 {
                        assert(cs.drop_last()[k] == cs[k]);
                    }
                }
            }
        } else {
            let k = choose|k: int| 0 <= k < cs.drop_last().len() && (#[trigger] cs.drop_last()[k]).id == cid;
            assert(cs[k] == cs.drop_last()[k]);
        }
    }
}

/// What [`remove_comment`] gives and leaves.
pub open spec fn remove_comment_post(m: Files, project: Seq<char>, id: Seq<char>, cid: u32, r: Result<Document<Review>>, m2: Files) -> bool {
    let path = review_path_spec(project, id);
    &&& review_load_failed(m, project, id, r)
    &&& r is Err ==> m2 == m
    &&& review_at(m, path) matches Some(d) ==> {
        let cs = d.frontmatter.comments;
        if d.frontmatter.state != ReviewState::Draft {
            r matches Err(Error::ReviewNotDraft(n)) && n@ == id
        } else if forall|k: int| 0 <= k < cs.len() ==> (#[trigger] cs[k]).id != cid {
            r matches Err(Error::CommentNotFound { review_id, comment_id }) && review_id@ == id
                && comment_id == cid
        } else {
            r matches Ok(doc) && doc@ == DocView {
                frontmatter: ReviewView { comments: without_comment(cs, cid), ..d.frontmatter },
                ..d
            } && m2 == m.insert(path, EntryView::Review(doc@))
        }
    }
}

/// Removes a comment from a draft review; the others keep their ids.
pub fn remove_comment(store: &mut MemoryStore, project: &str, review_id: &str, comment_id: u32) -> (r:
    Result<Document<Review>>)
    ensures
        remove_comment_post(old(store).files(), project@, review_id@, comment_id, r, final(store).files()),
{
    let mut review_doc = load_review(store, project, review_id)?;
    if review_doc.frontmatter.state != ReviewState::Draft {
        return Err(Error::ReviewNotDraft(owned(review_id)));
    }
    let ghost cs = review_doc@.frontmatter.comments;
    let mut kept: Vec<ReviewComment> = Vec::new();
    let mut i: usize = 0;
    while i < review_doc.frontmatter.comments.len()
        invariant
            i <= review_doc.frontmatter.comments.len(),
            cs == comment_views(review_doc.frontmatter.comments@),
            comment_views(kept@) == without_comment(cs.take(i as int), comment_id),
        decreases review_doc.frontmatter.comments.len() - i,
    {
        assert(cs.take(i + 1).drop_last() =~= cs.take(i as int));
        assert(cs.take(i + 1).last() == review_doc.frontmatter.comments[i as int]@);
        if review_doc.frontmatter.comments[i].id != comment_id {
            let ghost k0 = comment_views(kept@);
            let c = review_doc.frontmatter.comments[i].duplicate();
            kept.push(c);
            assert(comment_views(kept@) =~= k0.push(c@));
        }
        i = i + 1;
    }
    assert(cs.take(cs.len() as int) =~= cs);
    proof {
        lemma_without_comment_len(cs, comment_id);
    }
    if kept.len() == review_doc.frontmatter.comments.len() {
        return Err(Error::CommentNotFound { review_id: owned(review_id), comment_id });
    }
    review_doc.frontmatter.comments = kept;
    write_review(store, project, review_id, &review_doc);
    Ok(review_doc)
}

/// Whether a review has neither comments nor a summary.
pub open spec fn review_empty(d: DocView<ReviewView>) -> bool {
    d.frontmatter.comments.len() == 0 && crate::text::is_blank(d.body)
}

/// What [`submit_review`] gives and leaves.
pub open spec fn submit_review_post(m: Files, project: Seq<char>, id: Seq<char>, verdict: Option<Verdict>, r: Result<Document<Review>>, m2: Files) -> bool {
    let path = review_path_spec(project, id);
    &&& review_load_failed(m, project, id, r)
    &&& r is Err ==> m2 == m
    &&& review_at(m, path) matches Some(d) ==> if d.frontmatter.state != ReviewState::Draft {
        r matches Err(Error::ReviewNotDraft(n)) && n@ == id
    } else if verdict is None {
        r matches Err(Error::ReviewMissingVerdict(n)) && n@ == id
    } else if review_empty(d) {
        r matches Err(Error::ReviewEmpty(n)) && n@ == id
    } else {
        r matches Ok(doc) && doc@.body == d.body && m2 == m.insert(path, EntryView::Review(doc@))
            && exists|t: Timestamp|
            doc@.frontmatter == (ReviewView {
                verdict: verdict,
                state: ReviewState::Submitted,
                submitted: Some(t),
                ..d.frontmatter
            })
    }
}

/// Submits a draft review with its verdict, stamped with the current time.
pub fn submit_review(store: &mut MemoryStore, project: &str, review_id: &str, verdict: Option<Verdict>) -> (r:
    Result<Document<Review>>)
    ensures
        submit_review_post(old(store).files(), project@, review_id@, verdict, r, final(store).files()),
{
    let mut review_doc = load_review(store, project, review_id)?;
    if review_doc.frontmatter.state != ReviewState::Draft {
        return Err(Error::ReviewNotDraft(owned(review_id)));
    }
    let v = match verdict {
        Some(v) => v,
        None => return Err(Error::ReviewMissingVerdict(owned(review_id))),
    };
    if review_doc.frontmatter.comments.len() == 0 && crate::text::blank(review_doc.body.as_str()) {
        return Err(Error::ReviewEmpty(owned(review_id)));
    }
    let ghost d0 = review_doc@;
    let now = crate::clock::now_utc();
    review_doc.frontmatter.verdict = Some(v);
    review_doc.frontmatter.state = ReviewState::Submitted;
    review_doc.frontmatter.submitted = Some(now);
    assert(review_doc@.frontmatter == (ReviewView {
        verdict: verdict,
        state: ReviewState::Submitted,
        submitted: Some(now),
        ..d0.frontmatter
    }));
    write_review(store, project, review_id, &review_doc);
    Ok(review_doc)
}

/// What [`set_summary`] gives and leaves.
pub open spec fn set_summary_post(m: Files, project: Seq<char>, id: Seq<char>, body: BodyUpdate, r: Result<Document<Review>>, m2: Files) -> bool {
    let path = review_path_spec(project, id);
    &&& review_load_failed(m, project, id, r)
    &&& r is Err ==> m2 == m
    &&& review_at(m, path) matches Some(d) ==> if d.frontmatter.state != ReviewState::Draft {
        r matches Err(Error::ReviewNotDraft(n)) && n@ == id
    } else if body matches BodyUpdate::SetTo(n) && n@.len() == 0 && d.body.len() > 0 {
        r matches Err(Error::BodyClobberRefused)
    } else {
        r matches Ok(doc) && doc@.frontmatter == d.frontmatter && doc@.body == match body {
            BodyUpdate::Keep => d.body,
            BodyUpdate::Clear => Seq::<char>::empty(),
            BodyUpdate::SetTo(n) => n@,
        } && m2 == m.insert(path, EntryView::Review(doc@))
    }
}

/// Replaces a draft review's summary; replacing a non-empty one with an
/// empty one takes [`BodyUpdate::Clear`].
pub fn set_summary(store: &mut MemoryStore, project: &str, review_id: &str, body: BodyUpdate) -> (r:
    Result<Document<Review>>)
    ensures
        set_summary_post(old(store).files(), project@, review_id@, body, r, final(store).files()),
{
    let mut review_doc = load_review(store, project, review_id)?;
    if review_doc.frontmatter.state != ReviewState::Draft {
        return Err(Error::ReviewNotDraft(owned(review_id)));
    }
    match body.apply(&mut review_doc.body) {
        Ok(()) => {},
        Err(e) => {
            return Err(e);
        },
    }
    write_review(store, project, review_id, &review_doc);
    Ok(review_doc)
}

/// A move to an end state.
#[derive(Debug, Clone, Copy, PartialEq, Eq, Structural)]
pub enum ReviewTransition {
    /// Close as addressed: from `submitted`, with every comment closed.
    Addressed,
    /// Dismiss: from `draft` or `submitted`.
    Dismissed,
}

/// How many comments are still open.
pub open spec fn open_comments(cs: Seq<CommentView>) -> nat
    decreases cs.len(),
{
    if cs.len() == 0 {
        0
    } else {
        open_comments(cs.drop_last()) + if cs.last().status.is_terminal_spec() {
            0nat
        } else {
            1nat
        }
    }
}

proof fn lemma_open_comments_bound(cs: Seq<CommentView>)
    ensures
        open_comments(cs) <= cs.len(),
    decreases cs.len(),
{
    if cs.len() > 0 {
        lemma_open_comments_bound(cs.drop_last());
    }
}

fn count_open(cs: &Vec<ReviewComment>) -> (n: usize)
    ensures
        n == open_comments(comment_views(cs@)),
{
    let ghost cv = comment_views(cs@);
    let mut n: usize = 0;
    let mut i: usize = 0;
    while i < cs.len()
        invariant
            i <= cs.len(),
            cv == comment_views(cs@),
            n == open_comments(cv.take(i as int)),
            n <= i,
        decreases cs.len() - i,
    {
        assert(cv.take(i + 1).drop_last() =~= cv.take(i as int));
        assert(cv.take(i + 1).last() == cs[i as int]@);
        if !cs[i].status.is_terminal() {
            n = n + 1;
        }
        i = i + 1;
    }
    assert(cv.take(cs.len() as int) =~= cv);
    n
}

/// What [`update_review`] gives and leaves.
pub open spec fn update_review_post(m: Files, project: Seq<char>, id: Seq<char>, t: ReviewTransition, r: Result<Document<Review>>, m2: Files) -> bool {
    let path = review_path_spec(project, id);
    &&& review_load_failed(m, project, id, r)
    &&& r is Err ==> m2 == m
    &&& review_at(m, path) matches Some(d) ==> {
        let from = d.frontmatter.state;
        let to = match t {
            ReviewTransition::Addressed => ReviewState::Addressed,
            ReviewTransition::Dismissed => ReviewState::Dismissed,
        };
        let refused = match t {
            ReviewTransition::Addressed => from != ReviewState::Submitted,
            ReviewTransition::Dismissed => from.is_terminal_spec(),
        };
        if refused {
            r matches Err(Error::ReviewInvalidTransition { review_id, from: f, to: g })
                && review_id@ == id && f@ == from.name_spec() && g@ == to.name_spec()
        } else if t == ReviewTransition::Addressed && open_comments(d.frontmatter.comments) > 0 {
            r matches Err(Error::ReviewOpenComments { review_id, open_count }) && review_id@ == id
                && open_count == open_comments(d.frontmatter.comments)
        } else {
            r matches Ok(doc) && doc@ == DocView {
                frontmatter: ReviewView { state: to, ..d.frontmatter },
                ..d
            } && m2 == m.insert(path, EntryView::Review(doc@))
        }
    }
}

/// Moves a review to an end state, as its life allows.
pub fn update_review(store: &mut MemoryStore, project: &str, review_id: &str, transition: ReviewTransition) -> (r:
    Result<Document<Review>>)
    ensures
        update_review_post(old(store).files(), project@, review_id@, transition, r, final(store).files()),
{
    let mut review_doc = load_review(store, project, review_id)?;
    let from = review_doc.frontmatter.state;
    match transition {
        ReviewTransition::Addressed => {
            if from != ReviewState::Submitted {
                return Err(Error::ReviewInvalidTransition {
                    review_id: owned(review_id),
                    from: owned(from.as_str()),
                    to: owned(ReviewState::Addressed.as_str()),
                });
            }
            let open_count = count_open(&review_doc.frontmatter.comments);
            if open_count > 0 {
                return Err(Error::ReviewOpenComments { review_id: owned(review_id), open_count: open_count as u64 });
            }
            review_doc.frontmatter.state = ReviewState::Addressed;
        },
        ReviewTransition::Dismissed => {
            if from.is_terminal() {
                return Err(Error::ReviewInvalidTransition {
                    review_id: owned(review_id),
                    from: owned(from.as_str()),
                    to: owned(ReviewState::Dismissed.as_str()),
                });
            }
            review_doc.frontmatter.state = ReviewState::Dismissed;
        },
    }
    write_review(store, project, review_id, &review_doc);
    Ok(review_doc)
}


/// Open reviews and their open comments on one roadmap or task.
#[derive(Debug, Clone, Copy, Default, PartialEq, Eq, Structural)]
pub struct ReviewCounts {
    /// Submitted reviews on the item.
    pub open_reviews: usize,
    /// Comments of those reviews that are not closed.
    pub open_comments: usize,
}

/// Open-review counts per roadmap slug (phase reviews count for their
/// roadmap) and per task slug, each slug once.
#[derive(Debug, Clone, Default)]
pub struct OpenReviewCounts {
    pub roadmaps: Vec<(String, ReviewCounts)>,
    pub tasks: Vec<(String, ReviewCounts)>,
}

/// The sum of two counts, capped at the largest `usize`, which no list held
/// in memory reaches.
pub open spec fn sat(a: nat, b: nat) -> nat {
    if a + b > usize::MAX {
        usize::MAX as nat
    } else {
        a + b
    }
}

/// What a submitted review counts under: `(true, roadmap)` for a roadmap or
/// phase target, `(false, slug)` for a task.
pub open spec fn count_key(t: TargetView) -> (bool, Seq<char>) {
    match t {
        TargetView::Roadmap { roadmap } => (true, roadmap),
        TargetView::Phase { roadmap, .. } => (true, roadmap),
        TargetView::Task { slug } => (false, slug),
    }
}

/// The counts of reviews `rs` on one side (roadmaps when `side`, tasks
/// otherwise): for each slug, the submitted reviews on it and their open
/// comments.
pub open spec fn tally_reviews(rs: Seq<(Seq<char>, DocView<ReviewView>)>, side: bool) -> Map<Seq<char>, (nat, nat)>
    decreases rs.len(),
{
    if rs.len() == 0 {
        Map::empty()
    } else {
        let m = tally_reviews(rs.drop_last(), side);
        let r = rs.last().1.frontmatter;
        let key = count_key(r.target);
        if r.state == ReviewState::Submitted && key.0 == side {
            let prev = if m.contains_key(key.1) {
                m[key.1]
            } else {
                (0nat, 0nat)
            };
            m.insert(key.1, (sat(prev.0, 1), sat(prev.1, open_comments(r.comments))))
        } else {
            m
        }
    }
}

/// Whether the entries `v` hold exactly the counts `mp`, each slug once.
pub open spec fn represents(v: Seq<(String, ReviewCounts)>, mp: Map<Seq<char>, (nat, nat)>) -> bool {
    &&& forall|i: int, j: int| 0 <= i < j < v.len() ==> (#[trigger] v[i]).0@ != (#[trigger] v[j]).0@
    &&& forall|i: int|
        0 <= i < v.len() ==> mp.contains_key((#[trigger] v[i]).0@) && mp[v[i].0@] == (
            v[i].1.open_reviews as nat,
            v[i].1.open_comments as nat,
        )
    &&& forall|k: Seq<char>| #[trigger] mp.contains_key(k) ==> exists|i: int| 0 <= i < v.len() && (#[trigger] v[i]).0@ == k
}

/// The counts under `key` with one more open review with `n` open comments.
pub open spec fn bumped(mp: Map<Seq<char>, (nat, nat)>, key: Seq<char>, n: nat) -> (nat, nat) {
    let prev = if mp.contains_key(key) {
        mp[key]
    } else {
        (0nat, 0nat)
    };
    (sat(prev.0, 1), sat(prev.1, n))
}

/// Counts one more open review with `n` open comments under `key`.
fn bump(v: &mut Vec<(String, ReviewCounts)>, key: &str, n: usize, Ghost(mp): Ghost<Map<Seq<char>, (nat, nat)>>)
    requires
        represents(old(v)@, mp),
    ensures
        represents(final(v)@, mp.insert(key@, bumped(mp, key@, n as nat))),
{
    let mut j: usize = 0;
    let mut found = false;
    while j < v.len() && !found
        invariant
            j <= v.len(),
            forall|k: int| 0 <= k < j ==> (#[trigger] v@[k]).0@ != key@,
            found ==> j < v.len() && v@[j as int].0@ == key@,
        decreases v.len() - j, if found { 0int } else { 1int },
    {
        if str_eq(v[j].0.as_str(), key) {
            found = true;
        } else {
            j = j + 1;
        }
    }
    let ghost o = v@;
    if found {
        let c = v[j].1;
        let updated = ReviewCounts {
            open_reviews: c.open_reviews.saturating_add(1),
            open_comments: c.open_comments.saturating_add(n),
        };
        let k = v[j].0.clone();
        v.set(j, (k, updated));
        proof {
            assert(mp.contains_key(o[j as int].0@));
            let nm = mp.insert(key@, (sat(mp[key@].0, 1), sat(mp[key@].1, n as nat)));
            assert forall|i: int| 0 <= i < v.len() implies nm.contains_key((#[trigger] v@[i]).0@) && nm[v@[i].0@] == (
                v@[i].1.open_reviews as nat,
                v@[i].1.open_comments as nat,
            ) by {
                if i != j {
                    assert(v@[i] == o[i]);
                    assert(o[i].0@ != o[j as int].0@);
                }
            }
            assert forall|kk: Seq<char>| #[trigger] nm.contains_key(kk) implies exists|i: int| 0 <= i < v.len() && (#[trigger] v@[i]).0@ == kk by {
                if kk == key@ {
                    assert(v@[j as int].0@ == kk);
                } else {
                    let i = choose|i: int| 0 <= i < o.len() && (#[trigger] o[i]).0@ == kk;
                    assert(v@[i] == o[i] || i == j);
                    if i == j {
                        assert(false);
                    }
                }
            }
            assert forall|a: int, b: int| 0 <= a < b < v.len() implies (#[trigger] v@[a]).0@ != (#[trigger] v@[b]).0@ by {
                assert(o[a].0@ != o[b].0@);
                if a == j {
                    assert(v@[b] == o[b]);
                } else if b == j {
                    assert(v@[a] == o[a]);
                } else {
                    assert(v@[a] == o[a] && v@[b] == o[b]);
                }
            }
        }
    } else {
        proof {
            if mp.contains_key(key@) {
                let i = choose|i: int| 0 <= i < o.len() && (#[trigger] o[i]).0@ == key@;
                assert(false);
            }
        }
        v.push((owned(key), ReviewCounts { open_reviews: 1, open_comments: n }));
        proof {
            let nm = mp.insert(key@, (sat(0, 1), sat(0, n as nat)));
            assert forall|i: int| 0 <= i < v.len() implies nm.contains_key((#[trigger] v@[i]).0@) && nm[v@[i].0@] == (
                v@[i].1.open_reviews as nat,
                v@[i].1.open_comments as nat,
            ) by {
                if i < o.len() {
                    assert(v@[i] == o[i]);
                }
            }
            assert forall|kk: Seq<char>| #[trigger] nm.contains_key(kk) implies exists|i: int| 0 <= i < v.len() && (#[trigger] v@[i]).0@ == kk by {
                if kk == key@ {
                    assert(v@[o.len() as int].0@ == kk);
                } else {
                    let i = choose|i: int| 0 <= i < o.len() && (#[trigger] o[i]).0@ == kk;
                    assert(v@[i] == o[i]);
                }
            }
            assert forall|a: int, b: int| 0 <= a < b < v.len() implies (#[trigger] v@[a]).0@ != (#[trigger] v@[b]).0@ by {
                if b == o.len() {
                    assert(v@[a] == o[a]);
                } else {
                    assert(v@[a] == o[a] && v@[b] == o[b]);
                }
            }
        }
    }
}

/// Counts the open reviews of an already loaded list: only submitted
/// reviews count, with their comments that are not closed; phase reviews
/// count for their roadmap.
pub fn count_open_reviews_in(reviews: &Vec<(String, Document<Review>)>) -> (r: OpenReviewCounts)
    ensures
        represents(r.roadmaps@, tally_reviews(review_views(reviews@), true)),
        represents(r.tasks@, tally_reviews(review_views(reviews@), false)),
{
    let ghost rv = review_views(reviews@);
    let mut roadmaps: Vec<(String, ReviewCounts)> = Vec::new();
    let mut tasks: Vec<(String, ReviewCounts)> = Vec::new();
    assert(rv.take(0) =~= Seq::<(Seq<char>, DocView<ReviewView>)>::empty());
    assert(tally_reviews(rv.take(0), true) =~= Map::<Seq<char>, (nat, nat)>::empty());
    assert(tally_reviews(rv.take(0), false) =~= Map::<Seq<char>, (nat, nat)>::empty());
    let mut i: usize = 0;
    while i < reviews.len()
        invariant
            i <= reviews.len(),
            rv == review_views(reviews@),
            represents(roadmaps@, tally_reviews(rv.take(i as int), true)),
            represents(tasks@, tally_reviews(rv.take(i as int), false)),
        decreases reviews.len() - i,
    {
        let ghost pre = rv.take(i as int);
        assert(rv.take(i + 1).drop_last() =~= pre);
        assert(rv.take(i + 1).last() == rv[i as int]);
        assert(rv[i as int] == (reviews[i as int].0@, reviews[i as int].1@));
        let review = &reviews[i].1.frontmatter;
        if review.state == ReviewState::Submitted {
            let n = count_open(&review.comments);
            match &review.target {
                ReviewTarget::Roadmap { roadmap } => {
                    bump(&mut roadmaps, roadmap.as_str(), n, Ghost(tally_reviews(pre, true)));
                },
                ReviewTarget::Phase { roadmap, .. } => {
                    bump(&mut roadmaps, roadmap.as_str(), n, Ghost(tally_reviews(pre, true)));
                },
                ReviewTarget::Task { slug } => {
                    bump(&mut tasks, slug.as_str(), n, Ghost(tally_reviews(pre, false)));
                },
            }
        }
        i = i + 1;
    }
    assert(rv.take(reviews.len() as int) =~= rv);
    OpenReviewCounts { roadmaps, tasks }
}

/// What [`count_open_reviews`] gives on files `m`.
pub open spec fn count_open_reviews_post(m: Files, project: Seq<char>, r: Result<OpenReviewCounts>) -> bool {
    exists|l: Result<Vec<(String, Document<Review>)>>|
        #[trigger] lists_reviews(m, project, l) && match l {
            Ok(v) => r matches Ok(c) && represents(c.roadmaps@, tally_reviews(review_views(v@), true))
                && represents(c.tasks@, tally_reviews(review_views(v@), false)),
            Err(e) => r == Err::<OpenReviewCounts, Error>(e),
        }
}

/// Counts the open reviews of a project; see [`count_open_reviews_in`].
pub fn count_open_reviews(store: &MemoryStore, project: &str) -> (r: Result<OpenReviewCounts>)
    ensures
        count_open_reviews_post(store.files(), project@, r),
{
    let l = list_reviews(store, project);
    assert(lists_reviews(store.files(), project@, l));
    match l {
        Ok(v) => Ok(count_open_reviews_in(&v)),
        Err(e) => Err(e),
    }
}

/// What one review adds to the counts of one side.
pub open spec fn tally_step(mp: Map<Seq<char>, (nat, nat)>, x: (Seq<char>, DocView<ReviewView>), side: bool) -> Map<
    Seq<char>,
    (nat, nat),
> {
    let r = x.1.frontmatter;
    let key = count_key(r.target);
    if r.state == ReviewState::Submitted && key.0 == side {
        let prev = if mp.contains_key(key.1) {
            mp[key.1]
        } else {
            (0nat, 0nat)
        };
        mp.insert(key.1, (sat(prev.0, 1), sat(prev.1, open_comments(r.comments))))
    } else {
        mp
    }
}

proof fn lemma_tally_unfold(rs: Seq<(Seq<char>, DocView<ReviewView>)>, side: bool)
    requires
        rs.len() > 0,
    ensures
        tally_reviews(rs, side) == tally_step(tally_reviews(rs.drop_last(), side), rs.last(), side),
{
}

#[verifier::spinoff_prover]
#[verifier::rlimit(40)]
proof fn lemma_steps_commute(
    mp: Map<Seq<char>, (nat, nat)>,
    x: (Seq<char>, DocView<ReviewView>),
    y: (Seq<char>, DocView<ReviewView>),
    side: bool,
)
    ensures
        tally_step(tally_step(mp, x, side), y, side) == tally_step(tally_step(mp, y, side), x, side),
{
    let a = tally_step(tally_step(mp, x, side), y, side);
    let b = tally_step(tally_step(mp, y, side), x, side);
    assert forall|p: nat, u: nat, v: nat| #[trigger] sat(sat(p, u), v) == sat(sat(p, v), u) by {}
    assert(a =~= b);
}

/// Moving one review to the end does not change the counts.
proof fn lemma_tally_move_last(
    a: Seq<(Seq<char>, DocView<ReviewView>)>,
    x: (Seq<char>, DocView<ReviewView>),
    b: Seq<(Seq<char>, DocView<ReviewView>)>,
    side: bool,
)
    ensures
        tally_reviews(a.push(x) + b, side) == tally_reviews((a + b).push(x), side),
    decreases b.len(),
{
    if b.len() == 0 {
        assert(a.push(x) + b =~= (a + b).push(x));
    } else {
        let b1 = b.drop_last();
        let y = b.last();
        lemma_tally_move_last(a, x, b1, side);
        assert((a.push(x) + b).drop_last() =~= a.push(x) + b1);
        assert((a.push(x) + b).last() == y);
        lemma_tally_unfold(a.push(x) + b, side);
        assert((a + b1).push(x).drop_last() =~= a + b1);
        lemma_tally_unfold((a + b1).push(x), side);
        lemma_steps_commute(tally_reviews(a + b1, side), x, y, side);
        assert((a + b).drop_last() =~= a + b1);
        assert((a + b).last() == y);
        lemma_tally_unfold(a + b, side);
        assert((a + b).push(x).drop_last() =~= a + b);
        lemma_tally_unfold((a + b).push(x), side);
    }
}

/// The counts depend only on which reviews there are, not on their order.
proof fn lemma_tally_perm(s: Seq<(Seq<char>, DocView<ReviewView>)>, t: Seq<(Seq<char>, DocView<ReviewView>)>, side: bool)
    requires
        s.to_multiset() == t.to_multiset(),
    ensures
        tally_reviews(s, side) == tally_reviews(t, side),
    decreases s.len(),
{
    s.to_multiset_ensures();
    t.to_multiset_ensures();
    if s.len() == 0 {
        assert(t.len() == 0);
        assert(s =~= t);
    } else {
        let x = s.last();
        assert(s =~= s.drop_last().push(x));
        s.drop_last().to_multiset_ensures();
        assert(s.to_multiset().count(x) > 0);
        assert(t.contains(x));
        let j = choose|j: int| 0 <= j < t.len() && t[j] == x;
        let t1 = t.remove(j);
        vstd::seq_lib::to_multiset_remove(t, j);
        assert(t1.to_multiset() =~= s.drop_last().to_multiset());
        lemma_tally_perm(s.drop_last(), t1, side);
        let a = t.subrange(0, j);
        let b = t.subrange(j + 1, t.len() as int);
        assert(t =~= a.push(x) + b);
        assert(t1 =~= a + b);
        lemma_tally_move_last(a, x, b, side);
        assert((a + b).push(x).drop_last() =~= a + b);
        lemma_tally_unfold((a + b).push(x), side);
        lemma_tally_unfold(s, side);
    }
}

/// Two lists, each without repeats, of the same elements hold each element
/// equally often.
proof fn lemma_same_elements_multiset<A>(s: Seq<A>, t: Seq<A>)
    requires
        s.no_duplicates(),
        t.no_duplicates(),
        forall|x: A| s.contains(x) <==> t.contains(x),
    ensures
        s.to_multiset() == t.to_multiset(),
{
    s.lemma_multiset_has_no_duplicates();
    t.lemma_multiset_has_no_duplicates();
    s.to_multiset_ensures();
    t.to_multiset_ensures();
    assert forall|x: A| s.to_multiset().count(x) == t.to_multiset().count(x) by {
        if s.contains(x) {
            assert(s.to_multiset().contains(x));
            assert(t.to_multiset().contains(x));
        }
    }
    assert(s.to_multiset() =~= t.to_multiset());
}

/// Mapping two lists that hold the same elements equally often gives two
/// such lists.
proof fn lemma_map_multiset<A, B>(s: Seq<A>, t: Seq<A>, f: spec_fn(A) -> B)
    requires
        s.to_multiset() == t.to_multiset(),
    ensures
        s.map_values(f).to_multiset() == t.map_values(f).to_multiset(),
    decreases s.len(),
{
    s.to_multiset_ensures();
    t.to_multiset_ensures();
    if s.len() == 0 {
        assert(t.len() == 0);
        assert(s.map_values(f) =~= t.map_values(f));
    } else {
        let x = s.last();
        assert(s =~= s.drop_last().push(x));
        s.drop_last().to_multiset_ensures();
        assert(s.to_multiset().count(x) > 0);
        assert(t.contains(x));
        let j = choose|j: int| 0 <= j < t.len() && t[j] == x;
        let t1 = t.remove(j);
        vstd::seq_lib::to_multiset_remove(t, j);
        assert(t1.to_multiset() =~= s.drop_last().to_multiset());
        lemma_map_multiset(s.drop_last(), t1, f);
        assert(s.map_values(f) =~= s.drop_last().map_values(f).push(f(x)));
        s.drop_last().map_values(f).to_multiset_ensures();
        assert(t.map_values(f) =~= t1.map_values(f).insert(j, f(x)));
        vstd::seq_lib::to_multiset_insert(t1.map_values(f), j, f(x));
    }
}

/// Counting the open reviews of a project agrees with counting a listing of
/// them: the count fails exactly when the listing does, and otherwise gives
/// the counts of the listed reviews.
pub proof fn lemma_count_open_reviews_matches_listing(
    m: Files,
    project: Seq<char>,
    l: Result<Vec<(String, Document<Review>)>>,
    r: Result<OpenReviewCounts>,
)
    requires
        lists_reviews(m, project, l),
        count_open_reviews_post(m, project, r),
    ensures
        (r is Err) == (l is Err),
        l matches Ok(v) ==> (r matches Ok(c) && represents(c.roadmaps@, tally_reviews(review_views(v@), true))
            && represents(c.tasks@, tally_reviews(review_views(v@), false))),
{
    let l2 = choose|l2: Result<Vec<(String, Document<Review>)>>|
        #[trigger] lists_reviews(m, project, l2) && match l2 {
            Ok(v) => r matches Ok(c) && represents(c.roadmaps@, tally_reviews(review_views(v@), true))
                && represents(c.tasks@, tally_reviews(review_views(v@), false)),
            Err(e) => r == Err::<OpenReviewCounts, Error>(e),
        };
    if let Ok(v) = l {
        let v2 = l2->Ok_0;
        let item = |n: Seq<char>| review_item(m, project, n);
        let names = choose|names: Seq<Seq<char>>|
            review_files(m, project, names) && review_views(v@).to_multiset() == names.map_values(
                |n: Seq<char>| review_item(m, project, n),
            ).to_multiset();
        let names2 = choose|names: Seq<Seq<char>>|
            review_files(m, project, names) && review_views(v2@).to_multiset() == names.map_values(
                |n: Seq<char>| review_item(m, project, n),
            ).to_multiset();
        lemma_same_elements_multiset(names, names2);
        lemma_map_multiset(names, names2, item);
        assert(names.map_values(item) =~= names.map_values(|n: Seq<char>| review_item(m, project, n)));
        assert(names2.map_values(item) =~= names2.map_values(|n: Seq<char>| review_item(m, project, n)));
        lemma_tally_perm(review_views(v@), review_views(v2@), true);
        lemma_tally_perm(review_views(v@), review_views(v2@), false);
    }
}

impl OpenReviewCounts {
    /// The counts of a roadmap, if it has open reviews.
    pub fn roadmap(&self, slug: &str) -> (r: Option<ReviewCounts>)
        ensures
            r matches Some(c) ==> exists|i: int| 0 <= i < self.roadmaps.len() && self.roadmaps@[i].0@ == slug@ && self.roadmaps@[i].1 == c,
            r is None ==> forall|i: int| 0 <= i < self.roadmaps.len() ==> (#[trigger] self.roadmaps@[i]).0@ != slug@,
    {
        find_counts(&self.roadmaps, slug)
    }

    /// The counts of a task, if it has open reviews.
    pub fn task(&self, slug: &str) -> (r: Option<ReviewCounts>)
        ensures
            r matches Some(c) ==> exists|i: int| 0 <= i < self.tasks.len() && self.tasks@[i].0@ == slug@ && self.tasks@[i].1 == c,
            r is None ==> forall|i: int| 0 <= i < self.tasks.len() ==> (#[trigger] self.tasks@[i]).0@ != slug@,
    {
        find_counts(&self.tasks, slug)
    }
}

fn find_counts(v: &Vec<(String, ReviewCounts)>, slug: &str) -> (r: Option<ReviewCounts>)
    ensures
        r matches Some(c) ==> exists|i: int| 0 <= i < v.len() && v@[i].0@ == slug@ && v@[i].1 == c,
        r is None ==> forall|i: int| 0 <= i < v.len() ==> (#[trigger] v@[i]).0@ != slug@,
{
    let mut i: usize = 0;
    while i < v.len()
        invariant
            i <= v.len(),
            forall|k: int| 0 <= k < i ==> (#[trigger] v@[k]).0@ != slug@,
        decreases v.len() - i,
    {
        if str_eq(v[i].0.as_str(), slug) {
            return Some(v[i].1);
        }
        i = i + 1;
    }
    None
}

/// The number of open comments is the number of comments whose status is
/// `open`.
proof fn lemma_open_comments_count(cs: Seq<CommentView>)
    ensures
        open_comments(cs) == cs.filter(|c: CommentView| c.status == ReviewCommentStatus::Open).len(),
        open_comments(cs) == 0 <==> forall|i: int| 0 <= i < cs.len() ==> (#[trigger] cs[i]).status != ReviewCommentStatus::Open,
    decreases cs.len(),
{
    reveal(Seq::filter);
    if cs.len() > 0 {
        lemma_open_comments_count(cs.drop_last());
        assert forall|i: int| 0 <= i < cs.len() - 1 implies cs.drop_last()[i] == #[trigger] cs[i] by {}
        if open_comments(cs) == 0 {
            assert forall|i: int| 0 <= i < cs.len() implies (#[trigger] cs[i]).status != ReviewCommentStatus::Open by {
                if i < cs.len() - 1 {
                    assert(cs.drop_last()[i] == cs[i]);
                }
            }
        }
        if cs.last().status == ReviewCommentStatus::Open {
            assert(cs[cs.len() - 1].status == ReviewCommentStatus::Open);
        }
    }
}

/// Moving a review to `addressed` succeeds only for a submitted review whose
/// every comment is closed, and then the review is stored `addressed`. A
/// submitted review with a comment still open is refused with
/// [`Error::ReviewOpenComments`], which reports how many comments are open,
/// and no file changes.
pub proof fn lemma_addressed_needs_every_comment_closed(
    m: Files,
    project: Seq<char>,
    id: Seq<char>,
    r: Result<Document<Review>>,
    m2: Files,
)
    requires
        update_review_post(m, project, id, ReviewTransition::Addressed, r, m2),
    ensures
        r matches Ok(doc) ==> (review_at(m, review_path_spec(project, id)) matches Some(d)
            && d.frontmatter.state == ReviewState::Submitted
            && (forall|i: int| 0 <= i < d.frontmatter.comments.len() ==> (#[trigger] d.frontmatter.comments[i]).status
                != ReviewCommentStatus::Open)
            && doc@.frontmatter.state == ReviewState::Addressed
            && m2 == m.insert(review_path_spec(project, id), EntryView::Review(doc@))),
        review_at(m, review_path_spec(project, id)) matches Some(d) ==> (d.frontmatter.state == ReviewState::Submitted
            && (exists|i: int| 0 <= i < d.frontmatter.comments.len() && (#[trigger] d.frontmatter.comments[i]).status
            == ReviewCommentStatus::Open) ==> (r matches Err(Error::ReviewOpenComments { review_id, open_count })
            && review_id@ == id && open_count > 0
            && open_count == d.frontmatter.comments.filter(|c: CommentView| c.status == ReviewCommentStatus::Open).len()
            && m2 == m)),
{
    if review_at(m, review_path_spec(project, id)) is Some {
        let d = review_at(m, review_path_spec(project, id)).unwrap();
        lemma_open_comments_count(d.frontmatter.comments);
    }
}

/// Without `force`, only a draft review is deleted: deleting one that is no
/// longer a draft is refused with [`Error::ReviewNotDraft`] and its file
/// stays. Whenever a deletion succeeds the review existed, was a draft or
/// `force` was given, and exactly its file is gone.
pub proof fn lemma_delete_review_spares_non_drafts(
    m: Files,
    project: Seq<char>,
    id: Seq<char>,
    force: bool,
    r: Result<()>,
    m2: Files,
)
    requires
        delete_review_post(m, project, id, force, r, m2),
    ensures
        r is Ok ==> (review_at(m, review_path_spec(project, id)) matches Some(d)
            && (force || d.frontmatter.state == ReviewState::Draft)
            && m2 == m.remove(review_path_spec(project, id))),
        review_at(m, review_path_spec(project, id)) matches Some(d) ==> (!force && d.frontmatter.state
            != ReviewState::Draft ==> (r matches Err(Error::ReviewNotDraft(n)) && n@ == id && m2 == m
            && m2.contains_key(review_path_spec(project, id)))),
{
}

/// Dismissing a review succeeds exactly when it has not ended: a draft or
/// submitted review is stored `dismissed`, open comments or not; an
/// addressed or dismissed one is refused with
/// [`Error::ReviewInvalidTransition`] and no file changes.
pub proof fn lemma_dismissed_unless_ended(
    m: Files,
    project: Seq<char>,
    id: Seq<char>,
    r: Result<Document<Review>>,
    m2: Files,
)
    requires
        update_review_post(m, project, id, ReviewTransition::Dismissed, r, m2),
    ensures
        review_at(m, review_path_spec(project, id)) matches Some(d) ==> ((d.frontmatter.state == ReviewState::Draft
            || d.frontmatter.state == ReviewState::Submitted) ==> (r matches Ok(doc)
            && doc@.frontmatter.state == ReviewState::Dismissed
            && doc@.frontmatter.comments == d.frontmatter.comments
            && m2 == m.insert(review_path_spec(project, id), EntryView::Review(doc@)))),
        review_at(m, review_path_spec(project, id)) matches Some(d) ==> ((d.frontmatter.state == ReviewState::Addressed
            || d.frontmatter.state == ReviewState::Dismissed) ==> (r matches Err(Error::ReviewInvalidTransition { review_id, .. })
            && review_id@ == id && m2 == m)),
{
}

/// The largest comment id is at least every id, and is one of them unless
/// there are none (then it is zero).
proof fn lemma_max_comment_id(cs: Seq<CommentView>)
    ensures
        forall|k: int| 0 <= k < cs.len() ==> (#[trigger] cs[k]).id <= max_comment_id(cs),
        cs.len() == 0 ==> max_comment_id(cs) == 0,
        cs.len() > 0 ==> exists|k: int| 0 <= k < cs.len() && (#[trigger] cs[k]).id == max_comment_id(cs),
    decreases cs.len(),
{
    if cs.len() > 0 {
        let p = cs.drop_last();
        lemma_max_comment_id(p);
        assert forall|k: int| 0 <= k < cs.len() implies (#[trigger] cs[k]).id <= max_comment_id(cs) by {
            if k < cs.len() - 1 {
                assert(cs[k] == p[k]);
            }
        }
        if cs.last().id > max_comment_id(p) || p.len() == 0 {
            assert(cs[cs.len() - 1] == cs.last());
        } else {
            let k = choose|k: int| 0 <= k < p.len() && (#[trigger] p[k]).id == max_comment_id(p);
            assert(cs[k] == p[k]);
        }
    }
}

/// Adding a comment only ever changes a draft review, by appending one open
/// comment with the given text whose id is larger than every earlier id (one
/// more than the largest, or 1 for the first), leaving the earlier comments
/// and everything else as they were. A review that is not a draft is refused
/// with [`Error::ReviewNotDraft`] and no file changes.
pub proof fn lemma_add_comment_appends_to_a_draft(m: Files, req: AddComment, r: Result<Document<Review>>, m2: Files)
    requires
        add_comment_post(m, req, r, m2),
        review_at(m, review_path_spec(req.project@, req.review_id@)) matches Some(d) ==> max_comment_id(d.frontmatter.comments)
            < u32::MAX,
    ensures
        r matches Ok(doc) ==> (review_at(m, review_path_spec(req.project@, req.review_id@)) matches Some(d)
            && d.frontmatter.state == ReviewState::Draft && {
                let cs = d.frontmatter.comments;
                let ns = doc@.frontmatter.comments;
                &&& ns.len() == cs.len() + 1
                &&& forall|k: int| 0 <= k < cs.len() ==> ns[k] == #[trigger] cs[k]
                &&& forall|k: int| 0 <= k < cs.len() ==> (#[trigger] cs[k]).id < ns[cs.len() as int].id
                &&& (cs.len() == 0 ==> ns[0].id == 1)
                &&& (cs.len() > 0 ==> exists|k: int| 0 <= k < cs.len() && ns[cs.len() as int].id == (#[trigger] cs[k]).id + 1)
                &&& ns[cs.len() as int].status == ReviewCommentStatus::Open
                &&& ns[cs.len() as int].body == req.body@
                &&& ns[cs.len() as int].reply is None
                &&& ns[cs.len() as int].applied_commit is None
                &&& doc@.frontmatter.state == ReviewState::Draft
                &&& doc@.body == d.body
                &&& doc@.frontmatter.target == d.frontmatter.target
                &&& m2 == m.insert(review_path_spec(req.project@, req.review_id@), EntryView::Review(doc@))
            }),
        review_at(m, review_path_spec(req.project@, req.review_id@)) matches Some(d) ==> (d.frontmatter.state
            != ReviewState::Draft ==> (r matches Err(Error::ReviewNotDraft(n)) && n@ == req.review_id@ && m2 == m)),
{
    if r is Ok {
        let d = review_at(m, review_path_spec(req.project@, req.review_id@)).unwrap();
        lemma_max_comment_id(d.frontmatter.comments);
    }
}

/// Submitting only ever changes a draft review that has a comment or a
/// summary that is not blank, and a verdict is given: it is stored
/// `submitted` with that verdict and a submission time, its comments and
/// summary untouched. A review that is not a draft is refused with
/// [`Error::ReviewNotDraft`], a missing verdict with
/// [`Error::ReviewMissingVerdict`], and then no file changes.
pub proof fn lemma_submit_needs_a_draft_and_a_verdict(
    m: Files,
    project: Seq<char>,
    id: Seq<char>,
    verdict: Option<Verdict>,
    r: Result<Document<Review>>,
    m2: Files,
)
    requires
        submit_review_post(m, project, id, verdict, r, m2),
    ensures
        r matches Ok(doc) ==> (review_at(m, review_path_spec(project, id)) matches Some(d)
            && d.frontmatter.state == ReviewState::Draft && verdict is Some
            && (d.frontmatter.comments.len() > 0 || !crate::text::is_blank(d.body))
            && doc@.frontmatter.state == ReviewState::Submitted && doc@.frontmatter.verdict == verdict
            && doc@.frontmatter.submitted is Some && doc@.frontmatter.comments == d.frontmatter.comments
            && doc@.body == d.body && doc@.frontmatter.target == d.frontmatter.target
            && m2 == m.insert(review_path_spec(project, id), EntryView::Review(doc@))),
        review_at(m, review_path_spec(project, id)) matches Some(d) ==> (d.frontmatter.state != ReviewState::Draft ==> (
            r matches Err(Error::ReviewNotDraft(n)) && n@ == id && m2 == m)),
        review_at(m, review_path_spec(project, id)) matches Some(d) ==> (d.frontmatter.state == ReviewState::Draft
            && verdict is None ==> (r matches Err(Error::ReviewMissingVerdict(n)) && n@ == id && m2 == m)),
{
}

/// A created review is a new draft: it takes an id whose file did not
/// exist, names an existing target, has no comments, verdict or submission
/// time, and is the only file written.
pub proof fn lemma_created_review_is_a_new_draft(
    m: Files,
    req: CreateReview,
    now: Timestamp,
    suffixes: Seq<u16>,
    r: Result<Document<Review>>,
    m2: Files,
)
    requires
        create_review_post(m, req, now, suffixes, r, m2),
    ensures
        r matches Ok(doc) ==> ({
            let path = review_path_spec(req.project@, doc@.frontmatter.id);
            &&& !m.contains_key(path)
            &&& m.contains_key(target_path(req.project@, req.target@))
            &&& doc@.frontmatter.state == ReviewState::Draft
            &&& doc@.frontmatter.comments.len() == 0
            &&& doc@.frontmatter.verdict is None
            &&& doc@.frontmatter.submitted is None
            &&& doc@.frontmatter.author == req.author@
            &&& doc@.frontmatter.target == req.target@
            &&& m2 == m.insert(path, EntryView::Review(doc@))
        }),
{
    let project = req.project@;
    let cands = candidate_ids(now, suffixes);
    if r is Ok && m.contains_key(project_md_spec(project)) && m.contains_key(target_path(project, req.target@)) {
        if exists|k: int| 0 <= k < cands.len() && k < MAX_ID_ATTEMPTS && !m.contains_key(review_path_spec(project, #[trigger] cands[k])) {
            let k = choose|k: int| 0 <= k < cands.len() && k < MAX_ID_ATTEMPTS && !m.contains_key(review_path_spec(project, #[trigger] cands[k]));
            lemma_first_free_exists(m, project, cands, k);
        }
    }
}

/// A free candidate among the first ones means there is a first free one.
proof fn lemma_first_free_exists(m: Files, project: Seq<char>, cands: Seq<Seq<char>>, k: int)
    requires
        0 <= k < cands.len(),
        k < MAX_ID_ATTEMPTS,
        !m.contains_key(review_path_spec(project, cands[k])),
    ensures
        exists|i: int| first_free_id(m, project, cands, i),
    decreases k,
{
    if exists|j: int| 0 <= j < k && !m.contains_key(review_path_spec(project, #[trigger] cands[j])) {
        let j = choose|j: int| 0 <= j < k && !m.contains_key(review_path_spec(project, #[trigger] cands[j]));
        lemma_first_free_exists(m, project, cands, j);
    } else {
        assert(first_free_id(m, project, cands, k));
    }
}

/// Updating a comment changes only that comment, the first with the given
/// id: its text, place or scope only while the review is a draft, its
/// status, applied commit or reply only once the review is submitted; the
/// other comments, the review's state and its summary stay as they were. A
/// comment id the review does not have is refused with
/// [`Error::CommentNotFound`] and no file changes.
pub proof fn lemma_update_comment_touches_one_comment(m: Files, req: UpdateComment, r: Result<Document<Review>>, m2: Files)
    requires
        update_comment_post(m, req, r, m2),
    ensures
        r matches Ok(doc) ==> (review_at(m, review_path_spec(req.project@, req.review_id@)) matches Some(d) && {
            let cs = d.frontmatter.comments;
            let ns = doc@.frontmatter.comments;
            &&& (req.body is Some || !(req.anchor is Keep) || !(req.doc is Keep)) ==> d.frontmatter.state == ReviewState::Draft
            &&& (req.status is Some || req.applied_commit is Some || req.reply is Some) ==> d.frontmatter.state
                == ReviewState::Submitted
            &&& ns.len() == cs.len()
            &&& doc@.frontmatter.state == d.frontmatter.state
            &&& doc@.body == d.body
            &&& exists|k: int|
                0 <= k < cs.len() && (#[trigger] cs[k]).id == req.comment_id
                && (forall|j: int| 0 <= j < k ==> (#[trigger] cs[j]).id != req.comment_id)
                && (forall|j: int| 0 <= j < cs.len() && j != k ==> ns[j] == #[trigger] cs[j])
                && ns[k].id == cs[k].id
                && ns[k].body == (match req.body { Some(b) => b@, None => cs[k].body })
                && ns[k].status == (match req.status { Some(x) => x, None => cs[k].status })
            &&& m2 == m.insert(review_path_spec(req.project@, req.review_id@), EntryView::Review(doc@))
        }),
        review_at(m, review_path_spec(req.project@, req.review_id@)) matches Some(d) ==> ((forall|k: int|
            0 <= k < d.frontmatter.comments.len() ==> (#[trigger] d.frontmatter.comments[k]).id != req.comment_id)
            ==> (r matches Err(Error::CommentNotFound { review_id, comment_id }) && review_id@ == req.review_id@
            && comment_id == req.comment_id && m2 == m)),
{
    if r is Ok {
        let d = review_at(m, review_path_spec(req.project@, req.review_id@)).unwrap();
        let cs = d.frontmatter.comments;
        let k = choose|k: int| first_with_id(cs, req.comment_id, k) && r->Ok_0@ == DocView {
            frontmatter: ReviewView { comments: cs.update(k, comment_updated(cs[k], req)), ..d.frontmatter },
            ..d
        } && m2 == m.insert(review_path_spec(req.project@, req.review_id@), EntryView::Review(r->Ok_0@));
        let ns = r->Ok_0@.frontmatter.comments;
        assert forall|j: int| 0 <= j < cs.len() && j != k implies ns[j] == #[trigger] cs[j] by {}
        assert(exists|k: int| 0 <= k < cs.len() && (#[trigger] cs[k]).id == req.comment_id);
    }
}

/// Replacing a review's summary only ever changes a draft, and only its
/// summary: replacing a non-empty summary with an empty one is refused with
/// [`Error::BodyClobberRefused`], a review that is not a draft with
/// [`Error::ReviewNotDraft`], and then no file changes.
pub proof fn lemma_set_summary_changes_only_a_draft_summary(
    m: Files,
    project: Seq<char>,
    id: Seq<char>,
    body: BodyUpdate,
    r: Result<Document<Review>>,
    m2: Files,
)
    requires
        set_summary_post(m, project, id, body, r, m2),
    ensures
        r matches Ok(doc) ==> (review_at(m, review_path_spec(project, id)) matches Some(d)
            && d.frontmatter.state == ReviewState::Draft && doc@.frontmatter == d.frontmatter
            && !(body matches BodyUpdate::SetTo(n) && n@.len() == 0 && d.body.len() > 0)
            && m2 == m.insert(review_path_spec(project, id), EntryView::Review(doc@))),
        review_at(m, review_path_spec(project, id)) matches Some(d) ==> (d.frontmatter.state != ReviewState::Draft ==> (
            r matches Err(Error::ReviewNotDraft(n)) && n@ == id && m2 == m)),
        review_at(m, review_path_spec(project, id)) matches Some(d) ==> (d.frontmatter.state == ReviewState::Draft
            && (body matches BodyUpdate::SetTo(n) && n@.len() == 0) && d.body.len() > 0 ==> (r
            == Err::<Document<Review>, Error>(Error::BodyClobberRefused) && m2 == m)),
{
}

} // verus!
