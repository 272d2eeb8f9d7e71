//! The backlog grooming report's options and sections: stale tasks,
//! likely-duplicate task clusters, tag clusters and archivable roadmaps.
//! Nothing here writes to the store.
use vstd::prelude::*;

use crate::error::{Error, Result};
use crate::model::{copy_opt_strings, Date, Document, DocView, Phase, Roadmap, RoadmapView, Task, TaskStatus, TaskView};
use crate::ops::next::{complete, is_complete};
use crate::ops::phase::{list_phases, lists_phases, phase_views};
use crate::ops::task::task_views;
use crate::store::{Files, MemoryStore};
use crate::sorted::{sort_unique, strictly_sorted};
use crate::text::{lemma_seq_lt_asym, lemma_seq_lt_irrefl, lemma_seq_lt_total, lemma_seq_lt_trans, seq_le, seq_lt, str_eq, str_lt};

verus! {

/// A task counts as stale once it is this many days old.
pub const DEFAULT_STALE_THRESHOLD_DAYS: i64 = 60;

/// Options of a report run.
#[derive(Debug, Clone)]
pub struct ReportOptions {
    /// The staleness threshold in days.
    pub older_than_days: i64,
    /// Only items carrying this tag.
    pub tag: Option<String>,
}

impl Default for ReportOptions {
    fn default() -> (r: ReportOptions)
        ensures
            r.older_than_days == DEFAULT_STALE_THRESHOLD_DAYS,
            r.tag is None,
    {
        ReportOptions { older_than_days: DEFAULT_STALE_THRESHOLD_DAYS, tag: None }
    }
}

/// Whether year `y` of the proleptic Gregorian calendar is a leap year.
pub open spec fn leap_year(y: int) -> bool {
    (y % 4 == 0 && y % 100 != 0) || y % 400 == 0
}

/// The number of days of month `m` in year `y`.
pub open spec fn month_length(y: int, m: int) -> int {
    if m == 2 {
        if leap_year(y) {
            29
        } else {
            28
        }
    } else if m == 4 || m == 6 || m == 9 || m == 11 {
        30
    } else {
        31
    }
}

/// Whether `d` is a day of the calendar within the years that chrono's
/// `NaiveDate` holds (up to year 262142).
pub open spec fn calendar_date(d: Date) -> bool {
    &&& d.year <= 262142
    &&& 1 <= d.month <= 12
    &&& 1 <= d.day <= month_length(d.year as int, d.month as int)
}

/// The days of year `y` before month `m`.
pub open spec fn days_before_month(y: int, m: int) -> int
    decreases m,
{
    if m <= 1 {
        0
    } else {
        days_before_month(y, m - 1) + month_length(y, m - 1)
    }
}

/// The day number of `d` in the proleptic Gregorian calendar, counting
/// 0001-01-01 as day 1.
pub open spec fn day_number(d: Date) -> int {
    let y = d.year as int - 1;
    365 * y + y / 4 - y / 100 + y / 400 + days_before_month(d.year as int, d.month as int) + d.day as int
}

/// The days from `earlier` to `later` (negative when `later` comes first),
/// from chrono: `NaiveDate::from_ymd_opt` for both dates, then
/// `signed_duration_since` and `num_days`. chrono documents that
/// `from_ymd_opt` gives no date for a day that does not exist, a month or
/// day out of range or a year beyond its range, so the result is `None`
/// exactly when one of the dates is not a [`calendar_date`], and otherwise
/// the difference of their day numbers.
#[verifier::external_body]
fn days_between(later: Date, earlier: Date) -> (r: Option<i64>)
    requires
        later.year <= i32::MAX,
        earlier.year <= i32::MAX,
    ensures
        r.is_some() == (calendar_date(later) && calendar_date(earlier)),
        r matches Some(n) ==> n == day_number(later) - day_number(earlier),
{
    let a = chrono::NaiveDate::from_ymd_opt(later.year as i32, later.month, later.day);
    let b = chrono::NaiveDate::from_ymd_opt(earlier.year as i32, earlier.month, earlier.day);
    match (a, b) {
        (Some(a), Some(b)) => Some(a.signed_duration_since(b).num_days()),
        _ => None,
    }
}

/// The age in days of a task created on `created`, on `today`, when both
/// are calendar dates.
pub open spec fn age_on(today: Date, created: Date) -> Option<int> {
    if calendar_date(today) && calendar_date(created) {
        Some(day_number(today) - day_number(created))
    } else {
        None
    }
}

/// A task flagged as stale: still open or in progress, and old enough.
#[derive(Debug, Clone, PartialEq, Eq)]
pub struct StaleTask {
    pub slug: String,
    pub title: String,
    pub status: TaskStatus,
    pub created: Date,
    /// Its age in days, on the day of the report.
    pub age_days: i64,
    pub tags: Option<Vec<String>>,
}

/// Spec view of a [`StaleTask`].
pub struct StaleView {
    pub slug: Seq<char>,
    pub title: Seq<char>,
    pub status: TaskStatus,
    pub created: Date,
    pub age_days: i64,
    pub tags: Option<Seq<Seq<char>>>,
}

impl View for StaleTask {
    type V = StaleView;

    open spec fn view(&self) -> StaleView {
        StaleView {
            slug: self.slug@,
            title: self.title@,
            status: self.status,
            created: self.created,
            age_days: self.age_days,
            tags: self.tags.deep_view(),
        }
    }
}

/// The views of stale-task entries.
pub open spec fn stale_views(v: Seq<StaleTask>) -> Seq<StaleView> {
    v.map_values(|x: StaleTask| x@)
}

/// The stale entry of a listed task on `today`: a task that is open or in
/// progress and at least `older_than` days old (the boundary included).
pub open spec fn stale_entry(x: (Seq<char>, DocView<TaskView>), older_than: i64, today: Date) -> Option<StaleView> {
    let t = x.1.frontmatter;
    match age_on(today, t.created) {
        Some(age) => if (t.status == TaskStatus::Open || t.status == TaskStatus::InProgress) && age
            >= older_than {
            Some(StaleView {
                slug: x.0,
                title: t.title,
                status: t.status,
                created: t.created,
                age_days: age as i64,
                tags: t.tags,
            })
        } else {
            None
        },
        None => None,
    }
}

/// The stale entries of `tasks` in their order.
pub open spec fn stale_of(tasks: Seq<(Seq<char>, DocView<TaskView>)>, older_than: i64, today: Date) -> Seq<StaleView>
    decreases tasks.len(),
{
    if tasks.len() == 0 {
        Seq::empty()
    } else {
        stale_of(tasks.drop_last(), older_than, today) + match stale_entry(tasks.last(), older_than, today) {
            Some(e) => seq![e],
            None => Seq::empty(),
        }
    }
}

/// Whether entry `a` may come before entry `b`: older first, equal ages in
/// slug order.
pub open spec fn stale_le(a: StaleView, b: StaleView) -> bool {
    a.age_days > b.age_days || (a.age_days == b.age_days && seq_le(a.slug, b.slug))
}

/// Whether stale entries are oldest first, equal ages in slug order.
pub open spec fn stale_sorted(v: Seq<StaleView>) -> bool {
    forall|i: int, j: int| 0 <= i < j < v.len() ==> stale_le(#[trigger] v[i], #[trigger] v[j])
}

/// Inserts `x` after the entries that may come before it.
fn insert_stale(out: &mut Vec<StaleTask>, x: StaleTask)
    requires
        stale_sorted(stale_views(old(out)@)),
    ensures
        stale_sorted(stale_views(final(out)@)),
        stale_views(final(out)@).to_multiset() == stale_views(old(out)@).to_multiset().insert(x@),
{
    let ghost o = stale_views(out@);
    let mut p: usize = 0;
    while p < out.len() && !(x.age_days > out[p].age_days || (x.age_days == out[p].age_days && str_lt(
        x.slug.as_str(),
        out[p].slug.as_str(),
    )))
        invariant
            p <= out.len(),
            o == stale_views(out@),
            forall|k: int| 0 <= k < p ==> stale_le(#[trigger] o[k], x@),
        decreases out.len() - p,
    {
        assert(o[p as int] == out[p as int]@);
        proof {
            lemma_seq_lt_total(x.slug@, o[p as int].slug);
        }
        p = p + 1;
    }
    proof {
        if p < out.len() {
            assert(o[p as int] == out[p as int]@);
        }
    }
    out.insert(p, x);
    let ghost n = stale_views(out@);
    assert(n =~= o.insert(p as int, x@));
    proof {
        vstd::seq_lib::to_multiset_insert(o, p as int, x@);
        assert forall|i: int, j: int| 0 <= i < j < n.len() implies stale_le(#[trigger] n[i], #[trigger] n[j]) by {
            if j < p {
                assert(n[i] == o[i] && n[j] == o[j]);
            } else if j == p {
                assert(n[i] == o[i]);
            } else if i == p {
                assert(n[j] == o[j - 1]);
                if j - 1 > p {
                    assert(stale_le(o[p as int], o[j - 1]));
                    lemma_le_lt(x.slug@, o[p as int].slug, o[j - 1].slug);
                }
            } else if i < p {
                assert(n[i] == o[i] && n[j] == o[j - 1]);
            } else {
                assert(n[i] == o[i - 1] && n[j] == o[j - 1]);
            }
        }
    }
}

/// The stale tasks among `tasks` on `today`: open or in progress and at
/// least `older_than_days` days old, oldest first and equal ages in slug
/// order. A task whose creation date is no calendar date is never stale.
pub fn stale_tasks_at(tasks: &Vec<(String, Document<Task>)>, older_than_days: i64, today: Date) -> (out:
    Vec<StaleTask>)
    ensures
        stale_sorted(stale_views(out@)),
        stale_views(out@).to_multiset() == stale_of(task_views(tasks@), older_than_days, today).to_multiset(),
{
    let ghost tv = task_views(tasks@);
    let mut out: Vec<StaleTask> = Vec::new();
    let mut i: usize = 0;
    assert(stale_views(out@) =~= stale_of(tv.take(0), older_than_days, today));
    while i < tasks.len()
        invariant
            i <= tasks.len(),
            tv == task_views(tasks@),
            stale_sorted(stale_views(out@)),
            stale_views(out@).to_multiset() == stale_of(tv.take(i as int), older_than_days, today).to_multiset(),
        decreases tasks.len() - i,
    {
        let ghost before = stale_of(tv.take(i as int), older_than_days, today);
        assert(tv.take(i + 1).drop_last() =~= tv.take(i as int));
        assert(tv[i as int] == (tasks[i as int].0@, tasks[i as int].1@));
        assert(tv.take(i + 1).last() == tv[i as int]);
        let t = &tasks[i].1.frontmatter;
        let age = if today.year <= 2147483647 && t.created.year <= 2147483647 {
            days_between(today, t.created)
        } else {
            None
        };
        assert(age matches Some(a) ==> age_on(today, t.created) == Some(a as int));
        assert(age is None ==> age_on(today, t.created) is None);
        match age {
            Some(a) => {
                if (t.status == TaskStatus::Open || t.status == TaskStatus::InProgress) && a >= older_than_days {
                    let e = StaleTask {
                        slug: tasks[i].0.clone(),
                        title: t.title.clone(),
                        status: t.status,
                        created: t.created,
                        age_days: a,
                        tags: copy_opt_strings(&t.tags),
                    };
                    assert(stale_entry(tv[i as int], older_than_days, today) == Some(e@));
                    insert_stale(&mut out, e);
                    proof {
                        assert(stale_of(tv.take(i + 1), older_than_days, today) =~= before.push(e@));
                        vstd::seq_lib::to_multiset_build(before, e@);
                    }
                } else {
                    assert(stale_entry(tv[i as int], older_than_days, today) is None);
                    assert(stale_of(tv.take(i + 1), older_than_days, today) =~= before);
                }
            },
            None => {
                assert(stale_entry(tv[i as int], older_than_days, today) is None);
                assert(stale_of(tv.take(i + 1), older_than_days, today) =~= before);
            },
        }
        i = i + 1;
    }
    assert(tv.take(tasks.len() as int) =~= tv);
    out
}

/// The stale tasks among `tasks` today, by the local clock; see
/// [`stale_tasks_at`], which does the rest for whatever day the clock gave.
pub fn stale_tasks(tasks: &Vec<(String, Document<Task>)>, older_than_days: i64) -> (out: Vec<StaleTask>)
    ensures
        exists|today: Date|
            calendar_date(today) && stale_sorted(stale_views(out@)) && stale_views(out@).to_multiset() == stale_of(
                task_views(tasks@),
                older_than_days,
                today,
            ).to_multiset(),
{
    let today = crate::clock::today();
    stale_tasks_at(tasks, older_than_days, today)
}

/// One task of a duplicate cluster.
#[derive(Debug, Clone, PartialEq, Eq)]
pub struct DuplicateMember {
    pub slug: String,
    pub title: String,
}

impl View for DuplicateMember {
    type V = (Seq<char>, Seq<char>);

    open spec fn view(&self) -> (Seq<char>, Seq<char>) {
        (self.slug@, self.title@)
    }
}

/// Active tasks that are likely duplicates of each other, in slug order.
#[derive(Debug, Clone, PartialEq, Eq)]
pub struct DuplicateCluster {
    pub members: Vec<DuplicateMember>,
}

/// One task of a tag cluster.
#[derive(Debug, Clone, PartialEq, Eq)]
pub struct TagClusterMember {
    pub slug: String,
    pub title: String,
}

impl View for TagClusterMember {
    type V = (Seq<char>, Seq<char>);

    open spec fn view(&self) -> (Seq<char>, Seq<char>) {
        (self.slug@, self.title@)
    }
}

/// Active tasks sharing one tag, in slug order.
#[derive(Debug, Clone, PartialEq, Eq)]
pub struct TagCluster {
    pub tag: String,
    pub tasks: Vec<TagClusterMember>,
}

/// The views of cluster members: slug and title of each.
pub open spec fn member_views(v: Seq<TagClusterMember>) -> Seq<(Seq<char>, Seq<char>)> {
    v.map_values(|m: TagClusterMember| m@)
}

/// How many times `t` is among `ts`.
pub open spec fn count_in(ts: Seq<Seq<char>>, t: Seq<char>) -> nat
    decreases ts.len(),
{
    if ts.len() == 0 {
        0
    } else {
        count_in(ts.drop_last(), t) + if ts.last() == t {
            1nat
        } else {
            0nat
        }
    }
}

/// A task's tags; none when it has no tag list.
pub open spec fn tags_of(t: TaskView) -> Seq<Seq<char>> {
    match t.tags {
        Some(ts) => ts,
        None => Seq::empty(),
    }
}

/// How many times a listed task joins the cluster of tag `t`: once for each
/// time it carries `t`, and never when it is closed.
pub open spec fn joins(x: (Seq<char>, DocView<TaskView>), t: Seq<char>) -> nat {
    if x.1.frontmatter.status.is_terminal_spec() {
        0
    } else {
        count_in(tags_of(x.1.frontmatter), t)
    }
}

/// The members that tag `t` gathers from `tasks`, in order: slug and title
/// of each task that is not closed, once for every time it carries `t`.
pub open spec fn members_of(tasks: Seq<(Seq<char>, DocView<TaskView>)>, t: Seq<char>) -> Seq<
    (Seq<char>, Seq<char>),
>
    decreases tasks.len(),
{
    if tasks.len() == 0 {
        Seq::empty()
    } else {
        let x = tasks.last();
        members_of(tasks.drop_last(), t) + Seq::new(
            joins(x, t),
            |_i: int| (x.0, x.1.frontmatter.title),
        )
    }
}

/// Whether members are in slug order.
pub open spec fn slug_sorted(v: Seq<(Seq<char>, Seq<char>)>) -> bool {
    forall|i: int, j: int| 0 <= i < j < v.len() ==> seq_le(#[trigger] v[i].0, #[trigger] v[j].0)
}

/// Whether `out` are the tag clusters of `tasks`: one per tag that gathers
/// at least two members, in tag order, each holding exactly the members its
/// tag gathers, in slug order.
pub open spec fn clustered(tasks: Seq<(Seq<char>, DocView<TaskView>)>, out: Seq<TagCluster>) -> bool {
    &&& forall|i: int, j: int| 0 <= i < j < out.len() ==> seq_lt(#[trigger] out[i].tag@, #[trigger] out[j].tag@)
    &&& forall|i: int|
        #![trigger out[i]]
        0 <= i < out.len() ==> {
            &&& members_of(tasks, out[i].tag@).len() >= 2
            &&& slug_sorted(member_views(out[i].tasks@))
            &&& member_views(out[i].tasks@).to_multiset() == members_of(tasks, out[i].tag@).to_multiset()
        }
    &&& forall|t: Seq<char>|
        #![trigger members_of(tasks, t)]
        members_of(tasks, t).len() >= 2 ==> exists|i: int| 0 <= i < out.len() && (#[trigger] out[i]).tag@ == t
}

proof fn lemma_count_in_holds(ts: Seq<Seq<char>>, t: Seq<char>)
    requires
        count_in(ts, t) > 0,
    ensures
        ts.contains(t),
    decreases ts.len(),
{
    if ts.last() != t {
        lemma_count_in_holds(ts.drop_last(), t);
        let j = choose|j: int| 0 <= j < ts.drop_last().len() && ts.drop_last()[j] == t;
        assert(ts[j] == t);
    } else {
        assert(ts[ts.len() - 1] == t);
    }
}

/// A tag that gathers a member is carried by a task that is not closed.
proof fn lemma_members_carrier(tasks: Seq<(Seq<char>, DocView<TaskView>)>, t: Seq<char>)
    requires
        members_of(tasks, t).len() > 0,
    ensures
        exists|k: int|
            0 <= k < tasks.len() && !(#[trigger] tasks[k]).1.frontmatter.status.is_terminal_spec()
                && tags_of(tasks[k].1.frontmatter).contains(t),
    decreases tasks.len(),
{
    let x = tasks.last();
    if joins(x, t) > 0 {
        lemma_count_in_holds(tags_of(x.1.frontmatter), t);
        assert(tasks[tasks.len() - 1] == x);
    } else {
        assert(members_of(tasks, t) =~= members_of(tasks.drop_last(), t));
        lemma_members_carrier(tasks.drop_last(), t);
        let k = choose|k: int|
            0 <= k < tasks.drop_last().len() && !(#[trigger] tasks.drop_last()[k]).1.frontmatter.status.is_terminal_spec()
                && tags_of(tasks.drop_last()[k].1.frontmatter).contains(t);
        assert(tasks[k] == tasks.drop_last()[k]);
    }
}

/// The members that tag `t` gathers from `tasks`; see [`members_of`].
fn gather(tasks: &Vec<(String, Document<Task>)>, t: &str) -> (r: Vec<TagClusterMember>)
    ensures
        member_views(r@) == members_of(task_views(tasks@), t@),
{
    let ghost tv = task_views(tasks@);
    let mut out: Vec<TagClusterMember> = Vec::new();
    let mut i: usize = 0;
    assert(member_views(out@) =~= members_of(tv.take(0), t@));
    while i < tasks.len()
        invariant
            i <= tasks.len(),
            tv == task_views(tasks@),
            member_views(out@) == members_of(tv.take(i as int), t@),
        decreases tasks.len() - i,
    {
        let ghost x = tv[i as int];
        let ghost base = member_views(out@);
        assert(x == (tasks[i as int].0@, tasks[i as int].1@));
        assert(tv.take(i + 1).drop_last() =~= tv.take(i as int));
        assert(tv.take(i + 1).last() == x);
        let ghost m = (x.0, x.1.frontmatter.title);
        if !tasks[i].1.frontmatter.status.is_terminal() {
            match &tasks[i].1.frontmatter.tags {
                Some(ts) => {
                    let ghost tsv = ts.deep_view();
                    assert(tags_of(x.1.frontmatter) == tsv);
                    let mut j: usize = 0;
                    assert(member_views(out@) =~= base + Seq::new(count_in(tsv.take(0), t@), |_i: int| m));
                    while j < ts.len()
                        invariant
                            j <= ts.len(),
                            tsv == ts.deep_view(),
                            member_views(out@) == base + Seq::new(count_in(tsv.take(j as int), t@), |_i: int| m),
                            i < tasks.len(),
                            m == (tasks[i as int].0@, tasks[i as int].1.frontmatter.title@),
                        decreases ts.len() - j,
                    {
                        let ghost before = member_views(out@);
                        assert(tsv.take(j + 1).drop_last() =~= tsv.take(j as int));
                        assert(tsv[j as int] == ts[j as int]@);
                        if str_eq(ts[j].as_str(), t) {
                            out.push(TagClusterMember {
                                slug: tasks[i].0.clone(),
                                title: tasks[i].1.frontmatter.title.clone(),
                            });
                            assert(member_views(out@) =~= before.push(m));
                            assert(member_views(out@) =~= base + Seq::new(count_in(tsv.take(j + 1), t@), |_i: int| m));
                        } else {
                            assert(count_in(tsv.take(j + 1), t@) == count_in(tsv.take(j as int), t@));
                        }
                        j = j + 1;
                    }
                    assert(tsv.take(ts.len() as int) =~= tsv);
                },
                None => {
                    assert(joins(x, t@) == 0);
                    assert(member_views(out@) =~= base + Seq::new(joins(x, t@), |_i: int| m));
                },
            }
        } else {
            assert(member_views(out@) =~= base + Seq::new(joins(x, t@), |_i: int| m));
        }
        assert(member_views(out@) =~= members_of(tv.take(i + 1), t@));
        i = i + 1;
    }
    assert(tv.take(tasks.len() as int) =~= tv);
    out
}

proof fn lemma_le_lt(a: Seq<char>, b: Seq<char>, c: Seq<char>)
    ensures
        seq_le(a, b) && seq_lt(b, c) ==> seq_lt(a, c),
        seq_lt(a, b) && seq_le(b, c) ==> seq_lt(a, c),
        seq_le(a, b) && seq_le(b, c) ==> seq_le(a, c),
{
    lemma_seq_lt_trans(a, b, c);
}

/// Inserts `x` after the members whose slug does not sort after its own.
fn insert_by_slug(out: &mut Vec<TagClusterMember>, x: TagClusterMember)
    requires
        slug_sorted(member_views(old(out)@)),
    ensures
        slug_sorted(member_views(final(out)@)),
        member_views(final(out)@).to_multiset() == member_views(old(out)@).to_multiset().insert(x@),
{
    let ghost o = member_views(out@);
    let mut p: usize = 0;
    while p < out.len() && !str_lt(x.slug.as_str(), out[p].slug.as_str())
        invariant
            p <= out.len(),
            o == member_views(out@),
            forall|k: int| 0 <= k < p ==> !seq_lt(x.slug@, #[trigger] o[k].0),
        decreases out.len() - p,
    {
        assert(o[p as int] == out[p as int]@);
        p = p + 1;
    }
    proof {
        if p < out.len() {
            assert(o[p as int] == out[p as int]@);
        }
    }
    out.insert(p, x);
    let ghost n = member_views(out@);
    assert(n =~= o.insert(p as int, x@));
    proof {
        vstd::seq_lib::to_multiset_insert(o, p as int, x@);
        assert forall|i: int, j: int| 0 <= i < j < n.len() implies seq_le(#[trigger] n[i].0, #[trigger] n[j].0) by {
            if j < p {
                assert(n[i] == o[i] && n[j] == o[j]);
            } else if j == p {
                assert(n[i] == o[i]);
                assert(!seq_lt(x.slug@, o[i].0));
                lemma_seq_lt_total(x.slug@, o[i].0);
            } else if i == p {
                assert(n[j] == o[j - 1]);
                assert(seq_lt(x.slug@, o[p as int].0));
                if j - 1 > p {
                    lemma_le_lt(x.slug@, o[p as int].0, o[j - 1].0);
                }
            } else if i < p {
                assert(n[i] == o[i] && n[j] == o[j - 1]);
            } else {
                assert(n[i] == o[i - 1] && n[j] == o[j - 1]);
            }
        }
    }
}

/// The members in slug order; equal slugs keep their order.
pub(crate) fn sort_members(v: Vec<TagClusterMember>) -> (r: Vec<TagClusterMember>)
    ensures
        slug_sorted(member_views(r@)),
        member_views(r@).to_multiset() == member_views(v@).to_multiset(),
{
    let ghost vv = member_views(v@);
    let mut out: Vec<TagClusterMember> = Vec::new();
    let mut i: usize = 0;
    assert(member_views(out@) =~= vv.take(0));
    while i < v.len()
        invariant
            i <= v.len(),
            vv == member_views(v@),
            slug_sorted(member_views(out@)),
            member_views(out@).to_multiset() == vv.take(i as int).to_multiset(),
        decreases v.len() - i,
    {
        assert(vv.take(i + 1) =~= vv.take(i as int).push(vv[i as int]));
        proof {
            vstd::seq_lib::to_multiset_build(vv.take(i as int), vv[i as int]);
        }
        assert(vv[i as int] == v[i as int]@);
        let x = TagClusterMember { slug: v[i].slug.clone(), title: v[i].title.clone() };
        insert_by_slug(&mut out, x);
        i = i + 1;
    }
    assert(vv.take(v.len() as int) =~= vv);
    out
}

/// The tag clusters of a list of tasks: for each tag carried by at least two
/// tasks that are not closed (a task carrying it twice counts twice), those
/// tasks in slug order; the clusters in tag order. See [`clustered`].
#[verifier::rlimit(80)]
#[verifier::spinoff_prover]
pub fn tag_clusters(tasks: &Vec<(String, Document<Task>)>) -> (out: Vec<TagCluster>)
    ensures
        clustered(task_views(tasks@), out@),
{
    let ghost tv = task_views(tasks@);
    let mut flat: Vec<String> = Vec::new();
    let mut i: usize = 0;
    while i < tasks.len()
        invariant
            i <= tasks.len(),
            tv == task_views(tasks@),
            forall|k: int, x: Seq<char>|
                #![trigger tv[k], flat.deep_view().contains(x)]
                0 <= k < i && !tv[k].1.frontmatter.status.is_terminal_spec()
                    && tags_of(tv[k].1.frontmatter).contains(x) ==> flat.deep_view().contains(x),
        decreases tasks.len() - i,
    {
        assert(tv[i as int] == (tasks[i as int].0@, tasks[i as int].1@));
        let ghost f_start = flat.deep_view();
        if !tasks[i].1.frontmatter.status.is_terminal() {
            match &tasks[i].1.frontmatter.tags {
                Some(ts) => {
                    let ghost f0 = flat.deep_view();
                    let mut j: usize = 0;
                    while j < ts.len()
                        invariant
                            j <= ts.len(),
                            forall|x: Seq<char>| f0.contains(x) ==> flat.deep_view().contains(x),
                            forall|q: int| 0 <= q < j ==> flat.deep_view().contains(#[trigger] ts.deep_view()[q]),
                        decreases ts.len() - j,
                    {
                        let ghost fb = flat.deep_view();
                        flat.push(ts[j].clone());
                        assert(flat.deep_view() =~= fb.push(ts[j as int]@));
                        assert forall|x: Seq<char>| fb.contains(x) implies flat.deep_view().contains(x) by {
                            let q = choose|q: int| 0 <= q < fb.len() && fb[q] == x;
                            assert(flat.deep_view()[q] == x);
                        }
                        assert(flat.deep_view()[fb.len() as int] == ts.deep_view()[j as int]);
                        j = j + 1;
                    }
                    assert(tags_of(tv[i as int].1.frontmatter) == ts.deep_view());
                    assert forall|x: Seq<char>| #[trigger] ts.deep_view().contains(x) implies flat.deep_view().contains(x) by {
                        let q = choose|q: int| 0 <= q < ts.deep_view().len() && ts.deep_view()[q] == x;
                    }
                },
                None => {},
            }
        }
        proof {
            assert forall|k: int, x: Seq<char>|
                0 <= k < i + 1 && !(#[trigger] tv[k]).1.frontmatter.status.is_terminal_spec()
                    && tags_of(tv[k].1.frontmatter).contains(x) implies #[trigger] flat.deep_view().contains(x) by {
                if k < i {
                    assert(f_start.contains(x));
                }
            }
        }
        i = i + 1;
    }
    let names = sort_unique(&flat);
    let ghost nv = names.deep_view();
    let mut out: Vec<TagCluster> = Vec::new();
    let mut q: usize = 0;
    while q < names.len()
        invariant
            q <= names.len(),
            nv == names.deep_view(),
            strictly_sorted(nv),
            tv == task_views(tasks@),
            forall|i: int, j: int| 0 <= i < j < out.len() ==> seq_lt(#[trigger] out@[i].tag@, #[trigger] out@[j].tag@),
            forall|i: int| 0 <= i < out.len() ==> exists|k: int| 0 <= k < q && (#[trigger] out@[i]).tag@ == nv[k],
            forall|i: int|
                #![trigger out@[i]]
                0 <= i < out.len() ==> {
                    &&& members_of(tv, out@[i].tag@).len() >= 2
                    &&& slug_sorted(member_views(out@[i].tasks@))
                    &&& member_views(out@[i].tasks@).to_multiset() == members_of(tv, out@[i].tag@).to_multiset()
                },
            forall|k: int|
                0 <= k < q && members_of(tv, #[trigger] nv[k]).len() >= 2 ==> exists|i: int|
                    0 <= i < out.len() && out@[i].tag@ == nv[k],
        decreases names.len() - q,
    {
        assert(nv[q as int] == names[q as int]@);
        let members = gather(tasks, names[q].as_str());
        if members.len() >= 2 {
            let sorted = sort_members(members);
            let ghost o = out@;
            out.push(TagCluster { tag: names[q].clone(), tasks: sorted });
            proof {
                assert(out@[o.len() as int].tag@ == nv[q as int]);
                assert forall|i: int, j: int| 0 <= i < j < out.len() implies seq_lt(#[trigger] out@[i].tag@, #[trigger] out@[j].tag@) by {
                    if j < o.len() {
                        assert(out@[i] == o[i] && out@[j] == o[j]);
                    } else {
                        assert(out@[i] == o[i]);
                        let k = choose|k: int| 0 <= k < q && (#[trigger] o[i]).tag@ == nv[k];
                    }
                }
                assert forall|i: int| 0 <= i < out.len() implies exists|k: int| 0 <= k < q + 1 && (#[trigger] out@[i]).tag@ == nv[k] by {
                    if i < o.len() {
                        assert(out@[i] == o[i]);
                        let k = choose|k: int| 0 <= k < q && (#[trigger] o[i]).tag@ == nv[k];
                    } else {
                        assert(out@[i].tag@ == nv[q as int]);
                    }
                }
                assert forall|k: int|
                    0 <= k < q + 1 && members_of(tv, #[trigger] nv[k]).len() >= 2 implies exists|i: int|
                        0 <= i < out.len() && out@[i].tag@ == nv[k] by {
                    if k < q {
                        let i = choose|i: int| 0 <= i < o.len() && o[i].tag@ == nv[k];
                        assert(out@[i] == o[i]);
                    } else {
                        assert(out@[o.len() as int].tag@ == nv[k]);
                    }
                }
            }
        } else {
            proof {
                assert forall|i: int| 0 <= i < out.len() implies exists|k: int| 0 <= k < q + 1 && (#[trigger] out@[i]).tag@ == nv[k] by {
                    let k = choose|k: int| 0 <= k < q && (#[trigger] out@[i]).tag@ == nv[k];
                }
            }
        }
        q = q + 1;
    }
    proof {
        assert forall|t: Seq<char>| #[trigger] members_of(tv, t).len() >= 2 implies exists|i: int|
            0 <= i < out.len() && (#[trigger] out@[i]).tag@ == t by {
            lemma_members_carrier(tv, t);
            let k = choose|k: int|
                0 <= k < tv.len() && !(#[trigger] tv[k]).1.frontmatter.status.is_terminal_spec()
                    && tags_of(tv[k].1.frontmatter).contains(t);
            assert(flat.deep_view().contains(t));
            assert(nv.contains(t));
            let j = choose|j: int| 0 <= j < nv.len() && nv[j] == t;
            assert(members_of(tv, nv[j]).len() >= 2);
        }
    }
    out
}

/// A roadmap whose phases are all closed but that is not archived yet.
#[derive(Debug, Clone, PartialEq, Eq)]
pub struct ArchivableRoadmap {
    pub roadmap: String,
    pub title: String,
    pub phase_count: usize,
}

impl View for ArchivableRoadmap {
    type V = (Seq<char>, Seq<char>, usize);

    open spec fn view(&self) -> (Seq<char>, Seq<char>, usize) {
        (self.roadmap@, self.title@, self.phase_count)
    }
}

/// The views of archivable-roadmap entries.
pub open spec fn arch_views(v: Seq<ArchivableRoadmap>) -> Seq<(Seq<char>, Seq<char>, usize)> {
    v.map_values(|a: ArchivableRoadmap| a@)
}

/// Whether entries are in order of their roadmap slugs.
pub open spec fn roadmap_sorted(v: Seq<(Seq<char>, Seq<char>, usize)>) -> bool {
    forall|i: int, j: int| 0 <= i < j < v.len() ==> seq_le(#[trigger] v[i].0, #[trigger] v[j].0)
}

/// What checking roadmap `d` gives: its entry (slug, title, number of
/// phases) when its listed phases are all closed and there is one at least,
/// nothing when not, or the listing's error.
pub open spec fn arch_check(
    m: Files,
    project: Seq<char>,
    d: DocView<RoadmapView>,
    r: Result<Option<(Seq<char>, Seq<char>, usize)>>,
) -> bool {
    exists|l: Result<Vec<(String, Document<Phase>)>>|
        #[trigger] lists_phases(m, project, d.frontmatter.roadmap, l) && match l {
            Ok(ps) => r == Ok::<Option<(Seq<char>, Seq<char>, usize)>, Error>(
                if complete(phase_views(ps@)) {
                    Some((d.frontmatter.roadmap, d.frontmatter.title, ps.len()))
                } else {
                    None
                },
            ),
            Err(e) => r == Err::<Option<(Seq<char>, Seq<char>, usize)>, Error>(e),
        }
}

/// Whether `outs` are the outcomes of checking roadmaps `docs` in order: one
/// per roadmap, up to the first error, where checking stops.
pub open spec fn arch_outcomes(
    m: Files,
    project: Seq<char>,
    docs: Seq<DocView<RoadmapView>>,
    outs: Seq<Result<Option<(Seq<char>, Seq<char>, usize)>>>,
) -> bool {
    &&& outs.len() <= docs.len()
    &&& forall|i: int| 0 <= i < outs.len() ==> #[trigger] arch_check(m, project, docs[i], outs[i])
    &&& outs.len() < docs.len() ==> outs.len() > 0 && outs.last() is Err
}

/// The entries that outcomes `outs` keep, in order, or their first error.
pub open spec fn kept_of(outs: Seq<Result<Option<(Seq<char>, Seq<char>, usize)>>>) -> Result<
    Seq<(Seq<char>, Seq<char>, usize)>,
>
    decreases outs.len(),
{
    if outs.len() == 0 {
        Ok(Seq::empty())
    } else {
        match kept_of(outs.drop_last()) {
            Err(e) => Err(e),
            Ok(k) => match outs.last() {
                Err(e) => Err(e),
                Ok(None) => Ok(k),
                Ok(Some(a)) => Ok(k.push(a)),
            },
        }
    }
}

/// What [`archivable_roadmaps`] gives for roadmaps `docs` of `project`: the
/// first listing error, or the entries of the roadmaps whose phases are all
/// closed, in slug order.
pub open spec fn archivable_post(
    m: Files,
    project: Seq<char>,
    docs: Seq<DocView<RoadmapView>>,
    r: Result<Vec<ArchivableRoadmap>>,
) -> bool {
    exists|outs: Seq<Result<Option<(Seq<char>, Seq<char>, usize)>>>|
        #[trigger] arch_outcomes(m, project, docs, outs) && match kept_of(outs) {
            Err(e) => r == Err::<Vec<ArchivableRoadmap>, Error>(e),
            Ok(k) => r matches Ok(v) && roadmap_sorted(arch_views(v@)) && arch_views(v@).to_multiset()
                == k.to_multiset(),
        }
}

/// The views of roadmap documents.
pub open spec fn roadmap_docs(v: Seq<Document<Roadmap>>) -> Seq<DocView<RoadmapView>> {
    v.map_values(|d: Document<Roadmap>| d@)
}

/// Inserts `x` after the entries whose slug does not sort after its own.
fn insert_by_roadmap(out: &mut Vec<ArchivableRoadmap>, x: ArchivableRoadmap)
    requires
        roadmap_sorted(arch_views(old(out)@)),
    ensures
        roadmap_sorted(arch_views(final(out)@)),
        arch_views(final(out)@).to_multiset() == arch_views(old(out)@).to_multiset().insert(x@),
{
    let ghost o = arch_views(out@);
    let mut p: usize = 0;
    while p < out.len() && !str_lt(x.roadmap.as_str(), out[p].roadmap.as_str())
        invariant
            p <= out.len(),
            o == arch_views(out@),
            forall|k: int| 0 <= k < p ==> !seq_lt(x.roadmap@, #[trigger] o[k].0),
        decreases out.len() - p,
    {
        assert(o[p as int] == out[p as int]@);
        p = p + 1;
    }
    proof {
        if p < out.len() {
            assert(o[p as int] == out[p as int]@);
        }
    }
    out.insert(p, x);
    let ghost n = arch_views(out@);
    assert(n =~= o.insert(p as int, x@));
    proof {
        vstd::seq_lib::to_multiset_insert(o, p as int, x@);
        assert forall|i: int, j: int| 0 <= i < j < n.len() implies seq_le(#[trigger] n[i].0, #[trigger] n[j].0) by {
            if j < p {
                assert(n[i] == o[i] && n[j] == o[j]);
            } else if j == p {
                assert(n[i] == o[i]);
                lemma_seq_lt_total(x.roadmap@, o[i].0);
            } else if i == p {
                assert(n[j] == o[j - 1]);
                if j - 1 > p {
                    lemma_le_lt(x.roadmap@, o[p as int].0, o[j - 1].0);
                }
            } else if i < p {
                assert(n[i] == o[i] && n[j] == o[j - 1]);
            } else {
                assert(n[i] == o[i - 1] && n[j] == o[j - 1]);
            }
        }
    }
}

/// The roadmaps among `roadmaps` whose phases are all closed (a roadmap
/// with no phase is not), with their titles and phase counts, in slug
/// order; a listing error is passed on. See [`archivable_post`].
pub fn archivable_roadmaps(store: &MemoryStore, project: &str, roadmaps: &Vec<Document<Roadmap>>) -> (r:
    Result<Vec<ArchivableRoadmap>>)
    ensures
        archivable_post(store.files(), project@, roadmap_docs(roadmaps@), r),
{
    let ghost m = store.files();
    let ghost docs = roadmap_docs(roadmaps@);
    let ghost mut outs: Seq<Result<Option<(Seq<char>, Seq<char>, usize)>>> = Seq::empty();
    let mut out: Vec<ArchivableRoadmap> = Vec::new();
    let mut i: usize = 0;
    assert(arch_views(out@) =~= Seq::<(Seq<char>, Seq<char>, usize)>::empty());
    while i < roadmaps.len()
        invariant
            i <= roadmaps.len(),
            m == store.files(),
            docs == roadmap_docs(roadmaps@),
            outs.len() == i,
            forall|k: int| 0 <= k < i ==> #[trigger] arch_check(m, project@, docs[k], outs[k]),
            kept_of(outs) is Ok,
            roadmap_sorted(arch_views(out@)),
            arch_views(out@).to_multiset() == kept_of(outs).unwrap().to_multiset(),
        decreases roadmaps.len() - i,
    {
        let slug = &roadmaps[i].frontmatter.roadmap;
        assert(docs[i as int] == roadmaps[i as int]@);
        let l = list_phases(store, project, slug.as_str());
        let ghost o0 = outs;
        let ghost k0 = kept_of(outs).unwrap();
        match l {
            Ok(ps) => {
                let c = is_complete(&ps);
                let ghost entry = (slug@, roadmaps[i as int].frontmatter.title@, ps.len());
                proof {
                    let res = Ok::<Option<(Seq<char>, Seq<char>, usize)>, Error>(
                        if c { Some(entry) } else { None },
                    );
                    assert(lists_phases(m, project@, docs[i as int].frontmatter.roadmap, Ok(ps)));
                    assert(arch_check(m, project@, docs[i as int], res));
                    outs = outs.push(res);
                    assert(outs.drop_last() =~= o0);
                }
                if c {
                    let a = ArchivableRoadmap {
                        roadmap: slug.clone(),
                        title: roadmaps[i].frontmatter.title.clone(),
                        phase_count: ps.len(),
                    };
                    assert(a@ == entry);
                    insert_by_roadmap(&mut out, a);
                    proof {
                        vstd::seq_lib::to_multiset_build(k0, entry);
                    }
                }
                assert forall|k: int| 0 <= k < i + 1 implies #[trigger] arch_check(m, project@, docs[k], outs[k]) by {
                    if k < i {
                        assert(outs[k] == o0[k]);
                    }
                }
            },
            Err(e) => {
                proof {
                    let res = Err::<Option<(Seq<char>, Seq<char>, usize)>, Error>(e);
                    assert(lists_phases(m, project@, docs[i as int].frontmatter.roadmap, Err(e)));
                    assert(arch_check(m, project@, docs[i as int], res));
                    outs = outs.push(res);
                    assert(outs.drop_last() =~= o0);
                    assert forall|k: int| 0 <= k < outs.len() implies #[trigger] arch_check(m, project@, docs[k], outs[k]) by {
                        if k < i {
                            assert(outs[k] == o0[k]);
                        }
                    }
                    assert(arch_outcomes(m, project@, docs, outs));
                }
                return Err(e);
            },
        }
        i = i + 1;
    }
    assert(arch_outcomes(m, project@, docs, outs));
    Ok(out)
}

/// The full backlog grooming report.
#[derive(Debug, Clone, PartialEq, Eq)]
pub struct BacklogReport {
    /// Stale tasks, oldest first.
    pub stale_tasks: Vec<StaleTask>,
    /// Likely-duplicate task clusters.
    pub duplicate_clusters: Vec<DuplicateCluster>,
    /// Tag clusters, by tag.
    pub tag_clusters: Vec<TagCluster>,
    /// Archivable roadmaps, by slug.
    pub archivable_roadmaps: Vec<ArchivableRoadmap>,
}

/// Whether a tag list holds `t`; no tags hold nothing.
pub open spec fn carries_tag(tags: Option<Seq<Seq<char>>>, t: Seq<char>) -> bool {
    tags matches Some(v) && v.contains(t)
}

/// The tasks a report scoped to `tag` looks at: those carrying it, or all.
pub open spec fn scoped_tasks(v: Seq<(Seq<char>, DocView<TaskView>)>, tag: Option<Seq<char>>) -> Seq<
    (Seq<char>, DocView<TaskView>),
> {
    match tag {
        None => v,
        Some(t) => v.filter(|x: (Seq<char>, DocView<TaskView>)| carries_tag(x.1.frontmatter.tags, t)),
    }
}

/// The roadmaps a report scoped to `tag` looks at: those carrying it, or all.
pub open spec fn scoped_roadmaps(v: Seq<DocView<RoadmapView>>, tag: Option<Seq<char>>) -> Seq<DocView<RoadmapView>> {
    match tag {
        None => v,
        Some(t) => v.filter(|x: DocView<RoadmapView>| carries_tag(x.frontmatter.tags, t)),
    }
}

fn carries(tags: &Option<Vec<String>>, t: &str) -> (r: bool)
    ensures
        r == carries_tag(tags.deep_view(), t@),
{
    match tags {
        Some(v) => crate::graph::contains_str(v, t),
        None => false,
    }
}

fn scope_tasks(tasks: Vec<(String, Document<Task>)>, tag: Option<&str>) -> (r: Vec<(String, Document<Task>)>)
    ensures
        task_views(r@) == scoped_tasks(task_views(tasks@), match tag {
            Some(t) => Some(t@),
            None => None,
        }),
{
    match tag {
        None => tasks,
        Some(t) => {
            let ghost pred = |x: (Seq<char>, DocView<TaskView>)| carries_tag(x.1.frontmatter.tags, t@);
            let ghost tv = task_views(tasks@);
            let mut out: Vec<(String, Document<Task>)> = Vec::new();
            let mut i: usize = 0;
            let mut rest = tasks;
            let n = rest.len();
            let ghost all = rest@;
            while i < n
                invariant
                    i <= n,
                    n == all.len(),
                    tv == task_views(all),
                    rest@ == all.subrange(i as int, n as int),
                    task_views(out@) == tv.subrange(0, i as int).filter(pred),
                    pred == (|x: (Seq<char>, DocView<TaskView>)| carries_tag(x.1.frontmatter.tags, t@)),
                decreases n - i,
            {
                let x = rest.remove(0);
                assert(x == all[i as int]);
                assert(rest@ =~= all.subrange(i + 1, n as int));
                let keep = carries(&x.1.frontmatter.tags, t);
                proof {
                    let a = tv.subrange(0, i as int);
                    assert(tv.subrange(0, i + 1) =~= a + seq![tv[i as int]]);
                    Seq::filter_distributes_over_add(a, seq![tv[i as int]], pred);
                    reveal_with_fuel(Seq::filter, 2);
                    assert(seq![tv[i as int]].drop_last() =~= Seq::<(Seq<char>, DocView<TaskView>)>::empty());
                    assert(tv[i as int] == (x.0@, x.1@));
                }
                let ghost o0 = task_views(out@);
                if keep {
                    out.push(x);
                    assert(task_views(out@) =~= o0 + seq![tv[i as int]]);
                } else {
                    assert(o0 + Seq::<(Seq<char>, DocView<TaskView>)>::empty() =~= o0);
                }
                i = i + 1;
            }
            assert(tv.subrange(0, n as int) =~= tv);
            out
        },
    }
}

fn scope_roadmaps(roadmaps: Vec<Document<Roadmap>>, tag: Option<&str>) -> (r: Vec<Document<Roadmap>>)
    ensures
        roadmap_docs(r@) == scoped_roadmaps(roadmap_docs(roadmaps@), match tag {
            Some(t) => Some(t@),
            None => None,
        }),
{
    match tag {
        None => roadmaps,
        Some(t) => {
            let ghost pred = |x: DocView<RoadmapView>| carries_tag(x.frontmatter.tags, t@);
            let ghost dv = roadmap_docs(roadmaps@);
            let mut out: Vec<Document<Roadmap>> = Vec::new();
            let mut i: usize = 0;
            let mut rest = roadmaps;
            let n = rest.len();
            let ghost all = rest@;
            while i < n
                invariant
                    i <= n,
                    n == all.len(),
                    dv == roadmap_docs(all),
                    rest@ == all.subrange(i as int, n as int),
                    roadmap_docs(out@) == dv.subrange(0, i as int).filter(pred),
                    pred == (|x: DocView<RoadmapView>| carries_tag(x.frontmatter.tags, t@)),
                decreases n - i,
            {
                let x = rest.remove(0);
                assert(x == all[i as int]);
                assert(rest@ =~= all.subrange(i + 1, n as int));
                let keep = carries(&x.frontmatter.tags, t);
                proof {
                    let a = dv.subrange(0, i as int);
                    assert(dv.subrange(0, i + 1) =~= a + seq![dv[i as int]]);
                    Seq::filter_distributes_over_add(a, seq![dv[i as int]], pred);
                    reveal_with_fuel(Seq::filter, 2);
                    assert(seq![dv[i as int]].drop_last() =~= Seq::<DocView<RoadmapView>>::empty());
                    assert(dv[i as int] == x@);
                }
                let ghost o0 = roadmap_docs(out@);
                if keep {
                    out.push(x);
                    assert(roadmap_docs(out@) =~= o0 + seq![dv[i as int]]);
                } else {
                    assert(o0 + Seq::<DocView<RoadmapView>>::empty() =~= o0);
                }
                i = i + 1;
            }
            assert(dv.subrange(0, n as int) =~= dv);
            out
        },
    }
}

/// What a report on `project` gives on `today`, scoped to `tag` when one is
/// given: a failure to list the tasks or the roadmaps, or to check a
/// roadmap's phases, passed on; otherwise the stale tasks, the tag clusters
/// and the archivable roadmaps of the scoped tasks and roadmaps, and the
/// duplicate clusters of the scoped tasks under the title matches
/// `title_matches` (see [`crate::ops::duplicates::dup_clustered`]).
pub open spec fn report_post(
    m: Files,
    project: &str,
    tag: Option<Seq<char>>,
    older_than_days: i64,
    today: Date,
    title_matches: Seq<(Seq<char>, Seq<Seq<char>>)>,
    r: Result<BacklogReport>,
) -> bool {
    exists|lt: Result<Vec<(String, Document<Task>)>>|
        #[trigger] crate::ops::task::lists_tasks(m, project@, lt) && match lt {
            Err(e) => r == Err::<BacklogReport, Error>(e),
            Ok(tv) => {
                let ts = scoped_tasks(task_views(tv@), tag);
                exists|lr: Result<Vec<Document<Roadmap>>>|
                    #[trigger] crate::ops::roadmap::list_roadmaps_post(m, project, None, None, lr) && match lr {
                        Err(e) => r == Err::<BacklogReport, Error>(e),
                        Ok(rv) => exists|ar: Result<Vec<ArchivableRoadmap>>|
                            #[trigger] archivable_post(m, project@, scoped_roadmaps(roadmap_docs(rv@), tag), ar)
                            && match ar {
                                Err(e) => r == Err::<BacklogReport, Error>(e),
                                Ok(a) => r matches Ok(rep) && stale_sorted(stale_views(rep.stale_tasks@))
                                    && stale_views(rep.stale_tasks@).to_multiset() == stale_of(ts, older_than_days, today).to_multiset()
                                    && clustered(ts, rep.tag_clusters@) && rep.archivable_roadmaps@ == a@
                                    && crate::ops::duplicates::dup_clustered(
                                        crate::ops::duplicates::candidate_views(ts),
                                        crate::ops::duplicates::matched_of(crate::ops::duplicates::candidate_views(ts), title_matches),
                                        rep.duplicate_clusters@,
                                    ),
                            },
                    }
            },
        }
}

/// Builds the backlog report of `project` as of `today`, every section
/// scoped to `opts.tag` when one is set. `title_matches` pairs task slugs
/// with the slugs that the full-text search for the task's title found close
/// enough; the duplicate clusters are grouped from them.
pub fn report_at(
    store: &MemoryStore,
    project: &str,
    opts: &ReportOptions,
    today: Date,
    title_matches: Vec<(String, Vec<String>)>,
) -> (r: Result<BacklogReport>)
    ensures
        report_post(store.files(), project, crate::ops::gate::opt_text(opts.tag), opts.older_than_days, today, title_matches.deep_view(), r),
{
    let ghost m = store.files();
    let tag: Option<&str> = match &opts.tag {
        Some(t) => Some(t.as_str()),
        None => None,
    };
    let lt = crate::ops::task::list_tasks(store, project);
    let ghost ltv = lt;
    let tasks = match lt {
        Ok(v) => v,
        Err(e) => {
            assert(crate::ops::task::lists_tasks(m, project@, ltv));
            return Err(e);
        },
    };
    let ghost tv0 = tasks@;
    let scoped = scope_tasks(tasks, tag);
    let stale = stale_tasks_at(&scoped, opts.older_than_days, today);
    let clusters = tag_clusters(&scoped);
    let duplicate_clusters = crate::ops::duplicates::task_duplicate_clusters(&scoped, &title_matches);
    let lr = crate::ops::roadmap::list_roadmaps(store, project, None, None);
    let ghost lrv = lr;
    let roadmaps = match lr {
        Ok(v) => v,
        Err(e) => {
            assert(crate::ops::task::lists_tasks(m, project@, ltv));
            assert(crate::ops::roadmap::list_roadmaps_post(m, project, None, None, lrv));
            return Err(e);
        },
    };
    let ghost rv0 = roadmaps@;
    let scoped_r = scope_roadmaps(roadmaps, tag);
    let ar = archivable_roadmaps(store, project, &scoped_r);
    let ghost arv = ar;
    assert(crate::ops::task::lists_tasks(m, project@, ltv));
    assert(crate::ops::roadmap::list_roadmaps_post(m, project, None, None, lrv));
    assert(archivable_post(m, project@, scoped_roadmaps(roadmap_docs(rv0), crate::ops::gate::opt_text(opts.tag)), arv));
    match ar {
        Err(e) => Err(e),
        Ok(a) => Ok(BacklogReport {
            stale_tasks: stale,
            duplicate_clusters,
            tag_clusters: clusters,
            archivable_roadmaps: a,
        }),
    }
}

/// Builds the backlog report of `project` as of the local date; see
/// [`report_at`].
pub fn report(
    store: &MemoryStore,
    project: &str,
    opts: &ReportOptions,
    title_matches: Vec<(String, Vec<String>)>,
) -> (r: Result<BacklogReport>)
    ensures
        exists|today: Date|
            calendar_date(today) && report_post(store.files(), project, crate::ops::gate::opt_text(opts.tag), opts.older_than_days, today, title_matches.deep_view(), r),
{
    let today = crate::clock::today();
    report_at(store, project, opts, today, title_matches)
}

} // verus!
