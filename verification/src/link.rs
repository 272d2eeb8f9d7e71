//! References between plan repo documents, and what they resolve to.
use vstd::prelude::*;

use crate::text::{cat, cat3, str_eq};


verus! {

/// A reference to a plan repo item, as an `rdm:` link names it.
#[derive(Clone, Debug, PartialEq, Eq)]
pub enum ItemRef {
    Roadmap { roadmap: String },
    Phase { roadmap: String, stem: String },
    Task { slug: String },
    Plan { slug: String },
    /// A change in the project's source repository: its head commit and,
    /// where one is named, the commit it is based on.
    Change { head: String, base: Option<String> },
}

/// Spec view of an [`ItemRef`].
pub enum ItemRefView {
    Roadmap { roadmap: Seq<char> },
    Phase { roadmap: Seq<char>, stem: Seq<char> },
    Task { slug: Seq<char> },
    Plan { slug: Seq<char> },
    Change { head: Seq<char>, base: Option<Seq<char>> },
}

impl View for ItemRef {
    type V = ItemRefView;

    open spec fn view(&self) -> ItemRefView {
        match self {
            ItemRef::Roadmap { roadmap } => ItemRefView::Roadmap { roadmap: roadmap@ },
            ItemRef::Phase { roadmap, stem } => ItemRefView::Phase { roadmap: roadmap@, stem: stem@ },
            ItemRef::Task { slug } => ItemRefView::Task { slug: slug@ },
            ItemRef::Plan { slug } => ItemRefView::Plan { slug: slug@ },
            ItemRef::Change { head, base } => ItemRefView::Change { head: head@, base: base.deep_view() },
        }
    }
}

impl ItemRef {
    /// An exact copy.
    pub fn duplicate(&self) -> (r: ItemRef)
        ensures
            r@ == self@,
    {
        match self {
            ItemRef::Roadmap { roadmap } => ItemRef::Roadmap { roadmap: roadmap.clone() },
            ItemRef::Phase { roadmap, stem } => ItemRef::Phase { roadmap: roadmap.clone(), stem: stem.clone() },
            ItemRef::Task { slug } => ItemRef::Task { slug: slug.clone() },
            ItemRef::Plan { slug } => ItemRef::Plan { slug: slug.clone() },
            ItemRef::Change { head, base } => ItemRef::Change { head: head.clone(), base: crate::model::copy_opt_string(base) },
        }
    }
}

impl ItemRef {
    /// Whether two references name the same item.
    pub fn same(&self, other: &ItemRef) -> (r: bool)
        ensures
            r == (self@ == other@),
    {
        match (self, other) {
            (ItemRef::Roadmap { roadmap: x }, ItemRef::Roadmap { roadmap: y }) => str_eq(x.as_str(), y.as_str()),
            (ItemRef::Phase { roadmap: x, stem: s }, ItemRef::Phase { roadmap: y, stem: t }) => str_eq(
                x.as_str(),
                y.as_str(),
            ) && str_eq(s.as_str(), t.as_str()),
            (ItemRef::Task { slug: x }, ItemRef::Task { slug: y }) => str_eq(x.as_str(), y.as_str()),
            (ItemRef::Plan { slug: x }, ItemRef::Plan { slug: y }) => str_eq(x.as_str(), y.as_str()),
            (ItemRef::Change { head: h, base: b }, ItemRef::Change { head: k, base: c }) => str_eq(h.as_str(), k.as_str())
                && match (b, c) {
                (Some(x), Some(y)) => str_eq(x.as_str(), y.as_str()),
                (None, None) => true,
                _ => false,
            },
            _ => false,
        }
    }
}

/// A parsed `rdm:` link: to an item, or to a place in the project's source
/// code (a path, an optional revision and an optional line range).
#[derive(Clone, Debug, PartialEq, Eq)]
pub enum Link {
    Item(ItemRef),
    Code { path: String, rev: Option<String>, lines: Option<(u32, Option<u32>)> },
}

/// What a link resolves to: an item and whether it exists, or a source
/// location with the revision it is read at and, where the project names
/// its repository, a web address.
#[derive(Clone, Debug, PartialEq, Eq)]
pub enum Resolved {
    Item { target: ItemRef, exists: bool },
    Code {
        path: String,
        rev: Option<String>,
        lines: Option<(u32, Option<u32>)>,
        web_url: Option<String>,
    },
    Broken { reason: String },
}

/// Spec view of a [`Resolved`].
pub enum ResolvedView {
    Item { target: ItemRefView, exists: bool },
    Code {
        path: Seq<char>,
        rev: Option<Seq<char>>,
        lines: Option<(u32, Option<u32>)>,
        web_url: Option<Seq<char>>,
    },
    Broken { reason: Seq<char> },
}

impl View for Resolved {
    type V = ResolvedView;

    open spec fn view(&self) -> ResolvedView {
        match self {
            Resolved::Item { target, exists } => ResolvedView::Item { target: target@, exists: *exists },
            Resolved::Code { path, rev, lines, web_url } => ResolvedView::Code {
                path: path@,
                rev: rev.deep_view(),
                lines: *lines,
                web_url: web_url.deep_view(),
            },
            Resolved::Broken { reason } => ResolvedView::Broken { reason: reason@ },
        }
    }
}

/// How a reference is written: `roadmap/<slug>`, `phase/<roadmap>/<stem>`,
/// `task/<slug>`, `plan/<slug>`, or `change/<head>` (`change/<base>..<head>`
/// when the change names its base).
pub open spec fn label_spec(t: ItemRefView) -> Seq<char> {
    match t {
        ItemRefView::Roadmap { roadmap } => "roadmap/"@ + roadmap,
        ItemRefView::Phase { roadmap, stem } => "phase/"@ + roadmap + "/"@ + stem,
        ItemRefView::Task { slug } => "task/"@ + slug,
        ItemRefView::Plan { slug } => "plan/"@ + slug,
        ItemRefView::Change { head, base } => match base {
            Some(b) => "change/"@ + b + ".."@ + head,
            None => "change/"@ + head,
        },
    }
}

impl ItemRef {
    /// How the reference is written; see [`label_spec`].
    pub fn label(&self) -> (r: String)
        ensures
            r@ == label_spec(self@),
    {
        match self {
            ItemRef::Roadmap { roadmap } => cat("roadmap/", roadmap.as_str()),
            ItemRef::Phase { roadmap, stem } => {
                let mut s = cat3("phase/", roadmap.as_str(), "/");
                s.append(stem.as_str());
                s
            },
            ItemRef::Task { slug } => cat("task/", slug.as_str()),
            ItemRef::Plan { slug } => cat("plan/", slug.as_str()),
            ItemRef::Change { head, base } => match base {
                Some(b) => {
                    let mut s = cat3("change/", b.as_str(), "..");
                    s.append(head.as_str());
                    s
                },
                None => cat("change/", head.as_str()),
            },
        }
    }
}

/// A document of a project that can hold links: a roadmap, a phase, a
/// task, a plan, or a review or one of its comments.
#[derive(Clone, Debug, PartialEq, Eq)]
pub enum DocRef {
    Roadmap { roadmap: String },
    Phase { roadmap: String, stem: String },
    Task { slug: String },
    Plan { slug: String },
    Review { id: String, comment: Option<u32> },
}

/// Spec view of a [`DocRef`].
pub enum DocRefView {
    Roadmap { roadmap: Seq<char> },
    Phase { roadmap: Seq<char>, stem: Seq<char> },
    Task { slug: Seq<char> },
    Plan { slug: Seq<char> },
    Review { id: Seq<char>, comment: Option<u32> },
}

impl View for DocRef {
    type V = DocRefView;

    open spec fn view(&self) -> DocRefView {
        match self {
            DocRef::Roadmap { roadmap } => DocRefView::Roadmap { roadmap: roadmap@ },
            DocRef::Phase { roadmap, stem } => DocRefView::Phase { roadmap: roadmap@, stem: stem@ },
            DocRef::Task { slug } => DocRefView::Task { slug: slug@ },
            DocRef::Plan { slug } => DocRefView::Plan { slug: slug@ },
            DocRef::Review { id, comment } => DocRefView::Review { id: id@, comment: *comment },
        }
    }
}

/// A document that refers to an item through its `implements` field, and,
/// for one reached through a plan, that plan.
#[derive(Clone, Debug, PartialEq, Eq)]
pub struct BacklinkEntry {
    pub document: DocRef,
    pub via: Option<ItemRef>,
}

impl View for BacklinkEntry {
    type V = (DocRefView, Option<ItemRefView>);

    open spec fn view(&self) -> (DocRefView, Option<ItemRefView>) {
        (self.document@, match self.via {
            Some(v) => Some(v@),
            None => None,
        })
    }
}

} // verus!
