//! Field updates requested by callers: keep a field, set it, or clear it.
//!
//! Each `from_args` turns "a value or its `clear_*` flag" into one update and
//! refuses both at once with [`Error::ConflictingUpdate`].
use vstd::prelude::*;

use crate::error::{Error, Result};
use crate::model::{Difficulty, ModelTier, Priority};
use crate::text::owned;

verus! {

/// How to change a document's body.
#[derive(Debug, Clone, PartialEq, Eq)]
pub enum BodyUpdate {
    Keep,
    SetTo(String),
    Clear,
}

/// The error for a value given together with its clear flag.
pub open spec fn conflict(e: Error, field: Seq<char>) -> bool {
    e matches Error::ConflictingUpdate { field: f } && f@ == field
}

impl BodyUpdate {
    /// `SetTo` for a body, `Clear` for the flag, `Keep` for neither; both at
    /// once is refused.
    pub fn from_args(body: Option<String>, clear: bool) -> (r: Result<BodyUpdate>)
        ensures
            r is Err <==> (body is Some && clear),
            r matches Err(e) ==> conflict(e, "body"@),
            r matches Ok(u) ==> match body {
                Some(b) => u == BodyUpdate::SetTo(b),
                None => u == (if clear { BodyUpdate::Clear } else { BodyUpdate::Keep }),
            },
    {
        match (body, clear) {
            (Some(_), true) => Err(Error::ConflictingUpdate { field: owned("body") }),
            (Some(b), false) => Ok(BodyUpdate::SetTo(b)),
            (None, true) => Ok(BodyUpdate::Clear),
            (None, false) => Ok(BodyUpdate::Keep),
        }
    }

    /// Applies the update; replacing a non-empty body with an empty one is
    /// refused with [`Error::BodyClobberRefused`] and leaves the body as it was.
    pub fn apply(self, body: &mut String) -> (r: Result<()>)
        ensures
            r is Err <==> (self matches BodyUpdate::SetTo(n) && n@.len() == 0 && old(body)@.len()
                > 0),
            r matches Err(e) ==> e == Error::BodyClobberRefused,
            r is Err ==> final(body)@ == old(body)@,
            r is Ok ==> final(body)@ == match self {
                BodyUpdate::Keep => old(body)@,
                BodyUpdate::Clear => Seq::<char>::empty(),
                BodyUpdate::SetTo(n) => n@,
            },
    {
        match self {
            BodyUpdate::Keep => {},
            BodyUpdate::Clear => {
                *body = String::new();
            },
            BodyUpdate::SetTo(new) => {
                if new.as_str().unicode_len() == 0 && body.as_str().unicode_len() > 0 {
                    return Err(Error::BodyClobberRefused);
                }
                *body = new;
            },
        }
        Ok(())
    }
}

/// How to change a document's tags.
#[derive(Debug, Clone, PartialEq, Eq)]
pub enum TagsUpdate {
    Keep,
    SetTo(Vec<String>),
    Clear,
}

impl TagsUpdate {
    /// `SetTo` for tags, `Clear` for the flag, `Keep` for neither; both at once
    /// is refused.
    pub fn from_args(tags: Option<Vec<String>>, clear: bool) -> (r: Result<TagsUpdate>)
        ensures
            r is Err <==> (tags is Some && clear),
            r matches Err(e) ==> conflict(e, "tags"@),
            r matches Ok(u) ==> match tags {
                Some(t) => u == TagsUpdate::SetTo(t),
                None => u == (if clear { TagsUpdate::Clear } else { TagsUpdate::Keep }),
            },
    {
        match (tags, clear) {
            (Some(_), true) => Err(Error::ConflictingUpdate { field: owned("tags") }),
            (Some(t), false) => Ok(TagsUpdate::SetTo(t)),
            (None, true) => Ok(TagsUpdate::Clear),
            (None, false) => Ok(TagsUpdate::Keep),
        }
    }

    /// Applies the update; setting an empty list leaves no tags at all.
    pub fn apply(self, tags: &mut Option<Vec<String>>)
        ensures
            final(tags).deep_view() == match self {
                TagsUpdate::Keep => old(tags).deep_view(),
                TagsUpdate::Clear => None,
                TagsUpdate::SetTo(n) => if n@.len() == 0 {
                    None
                } else {
                    Some(n.deep_view())
                },
            },
    {
        match self {
            TagsUpdate::Keep => {},
            TagsUpdate::Clear => {
                *tags = None;
            },
            TagsUpdate::SetTo(new) => {
                *tags = if new.len() == 0 {
                    None
                } else {
                    Some(new)
                };
            },
        }
    }
}

/// How to change an optional priority.
#[derive(Debug, Clone, Copy, PartialEq, Eq, Structural)]
pub enum PriorityUpdate {
    Keep,
    SetTo(Priority),
    Clear,
}

impl PriorityUpdate {
    /// `SetTo` for a priority, `Clear` for the flag, `Keep` for neither; both
    /// at once is refused.
    pub fn from_args(priority: Option<Priority>, clear: bool) -> (r: Result<PriorityUpdate>)
        ensures
            r is Err <==> (priority is Some && clear),
            r matches Err(e) ==> conflict(e, "priority"@),
            r matches Ok(u) ==> u == match priority {
                Some(p) => PriorityUpdate::SetTo(p),
                None => if clear {
                    PriorityUpdate::Clear
                } else {
                    PriorityUpdate::Keep
                },
            },
    {
        match (priority, clear) {
            (Some(_), true) => Err(Error::ConflictingUpdate { field: owned("priority") }),
            (Some(p), false) => Ok(PriorityUpdate::SetTo(p)),
            (None, true) => Ok(PriorityUpdate::Clear),
            (None, false) => Ok(PriorityUpdate::Keep),
        }
    }

    /// Applies the update.
    pub fn apply(self, priority: &mut Option<Priority>)
        ensures
            *final(priority) == match self {
                PriorityUpdate::Keep => *old(priority),
                PriorityUpdate::SetTo(p) => Some(p),
                PriorityUpdate::Clear => None,
            },
    {
        match self {
            PriorityUpdate::Keep => {},
            PriorityUpdate::SetTo(p) => {
                *priority = Some(p);
            },
            PriorityUpdate::Clear => {
                *priority = None;
            },
        }
    }
}

/// How to change an optional difficulty.
#[derive(Debug, Clone, Copy, PartialEq, Eq, Structural)]
pub enum DifficultyUpdate {
    Keep,
    SetTo(Difficulty),
    Clear,
}

impl DifficultyUpdate {
    /// `SetTo` for a difficulty, `Clear` for the flag, `Keep` for neither;
    /// both at once is refused.
    pub fn from_args(difficulty: Option<Difficulty>, clear: bool) -> (r: Result<DifficultyUpdate>)
        ensures
            r is Err <==> (difficulty is Some && clear),
            r matches Err(e) ==> conflict(e, "difficulty"@),
            r matches Ok(u) ==> u == match difficulty {
                Some(d) => DifficultyUpdate::SetTo(d),
                None => if clear {
                    DifficultyUpdate::Clear
                } else {
                    DifficultyUpdate::Keep
                },
            },
    {
        match (difficulty, clear) {
            (Some(_), true) => Err(Error::ConflictingUpdate { field: owned("difficulty") }),
            (Some(d), false) => Ok(DifficultyUpdate::SetTo(d)),
            (None, true) => Ok(DifficultyUpdate::Clear),
            (None, false) => Ok(DifficultyUpdate::Keep),
        }
    }

    /// Applies the update.
    pub fn apply(self, difficulty: &mut Option<Difficulty>)
        ensures
            *final(difficulty) == match self {
                DifficultyUpdate::Keep => *old(difficulty),
                DifficultyUpdate::SetTo(d) => Some(d),
                DifficultyUpdate::Clear => None,
            },
    {
        match self {
            DifficultyUpdate::Keep => {},
            DifficultyUpdate::SetTo(d) => {
                *difficulty = Some(d);
            },
            DifficultyUpdate::Clear => {
                *difficulty = None;
            },
        }
    }
}

/// How to change an optional model tier.
#[derive(Debug, Clone, Copy, PartialEq, Eq, Structural)]
pub enum ModelTierUpdate {
    Keep,
    SetTo(ModelTier),
    Clear,
}

impl ModelTierUpdate {
    /// `SetTo` for a tier, `Clear` for the flag, `Keep` for neither; both at
    /// once is refused.
    pub fn from_args(model: Option<ModelTier>, clear: bool) -> (r: Result<ModelTierUpdate>)
        ensures
            r is Err <==> (model is Some && clear),
            r matches Err(e) ==> conflict(e, "model"@),
            r matches Ok(u) ==> u == match model {
                Some(m) => ModelTierUpdate::SetTo(m),
                None => if clear {
                    ModelTierUpdate::Clear
                } else {
                    ModelTierUpdate::Keep
                },
            },
    {
        match (model, clear) {
            (Some(_), true) => Err(Error::ConflictingUpdate { field: owned("model") }),
            (Some(m), false) => Ok(ModelTierUpdate::SetTo(m)),
            (None, true) => Ok(ModelTierUpdate::Clear),
            (None, false) => Ok(ModelTierUpdate::Keep),
        }
    }

    /// Applies the update.
    pub fn apply(self, model: &mut Option<ModelTier>)
        ensures
            *final(model) == match self {
                ModelTierUpdate::Keep => *old(model),
                ModelTierUpdate::SetTo(m) => Some(m),
                ModelTierUpdate::Clear => None,
            },
    {
        match self {
            ModelTierUpdate::Keep => {},
            ModelTierUpdate::SetTo(m) => {
                *model = Some(m);
            },
            ModelTierUpdate::Clear => {
                *model = None;
            },
        }
    }
}

/// How to change a task's title.
#[derive(Debug, Clone, PartialEq, Eq)]
pub enum TitleUpdate {
    Keep,
    SetTo(String),
}

impl TitleUpdate {
    /// Applies the update; a blank title is refused with
    /// [`Error::EmptyTitle`] and leaves the title as it was.
    pub fn apply(self, title: &mut String) -> (r: Result<()>)
        ensures
            r is Err <==> (self matches TitleUpdate::SetTo(t) && crate::text::is_blank(t@)),
            r matches Err(e) ==> e == Error::EmptyTitle,
            r is Err ==> final(title)@ == old(title)@,
            r is Ok ==> final(title)@ == match self {
                TitleUpdate::Keep => old(title)@,
                TitleUpdate::SetTo(t) => t@,
            },
    {
        match self {
            TitleUpdate::Keep => Ok(()),
            TitleUpdate::SetTo(t) => {
                if crate::text::blank(t.as_str()) {
                    return Err(Error::EmptyTitle);
                }
                *title = t;
                Ok(())
            },
        }
    }
}

/// How to change a task's close reason.
#[derive(Debug, Clone, PartialEq, Eq)]
pub enum ReasonUpdate {
    Keep,
    SetTo(String),
    Clear,
}

impl ReasonUpdate {
    /// Applies the update.
    pub fn apply(self, reason: &mut Option<String>)
        ensures
            final(reason).deep_view() == match self {
                ReasonUpdate::Keep => old(reason).deep_view(),
                ReasonUpdate::SetTo(t) => Some(t@),
                ReasonUpdate::Clear => None,
            },
    {
        match self {
            ReasonUpdate::Keep => {},
            ReasonUpdate::SetTo(t) => {
                *reason = Some(t);
            },
            ReasonUpdate::Clear => {
                *reason = None;
            },
        }
    }
}

} // verus!
