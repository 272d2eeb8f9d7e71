//! Locating the plan repo root: an explicit override, the global
//! configuration's `root`, or the per-user data directory, in that order;
//! reading the global configuration's text; and resolving the `.` and `..`
//! of an absolute path. Paths are carried as strings; reading the
//! environment, the file and the working directory is left to the caller,
//! which hands in what it found.
use vstd::prelude::*;

use crate::config::{unquote, unquote_exec};
use crate::error::{Error, Result};
use crate::text::{blank, cat, is_blank, is_prefix, split_all, split_all_str, split_once, split_once_char, starts_with, str_eq, trim, trim_str};

verus! {

/// The per-user configuration that applies to every plan repo.
#[derive(Debug, Clone, PartialEq, Eq)]
pub struct GlobalConfig {
    /// The plan repo to use when none is named.
    pub root: Option<String>,
}

impl Default for GlobalConfig {
    fn default() -> (r: GlobalConfig)
        ensures
            r.root is None,
    {
        GlobalConfig { root: None }
    }
}

/// The root that the priority chain picks: `explicit`, else the global
/// `root`, else `data_dir` (the per-user data directory, where one is known).
pub open spec fn chosen_root(
    explicit: Option<Seq<char>>,
    global_root: Option<Seq<char>>,
    data_dir: Option<Seq<char>>,
) -> Option<Seq<char>> {
    if explicit is Some {
        explicit
    } else if global_root is Some {
        global_root
    } else {
        data_dir
    }
}

/// Resolves the plan repo root: `explicit` wins, then `global.root`, then
/// `data_dir`; with none of them, [`Error::RootNotDetermined`]. The path is
/// returned as given, not expanded.
pub fn resolve_root(explicit: Option<String>, global: &GlobalConfig, data_dir: Option<String>) -> (r: Result<String>)
    ensures
        match chosen_root(explicit.deep_view(), global.root.deep_view(), data_dir.deep_view()) {
            Some(p) => (r matches Ok(s) && s@ == p),
            None => (r matches Err(Error::RootNotDetermined)),
        },
{
    if let Some(root) = explicit {
        return Ok(root);
    }
    if let Some(root) = &global.root {
        return Ok(root.clone());
    }
    if let Some(dir) = data_dir {
        return Ok(dir);
    }
    Err(Error::RootNotDetermined)
}

/// One line of the global configuration applied to what was read so far:
/// blank lines and `#` comments change nothing, `root = "<path>"` sets the
/// root, any other `key = value` line is left to the settings this library
/// does not read, and a line with no `=` is refused.
pub open spec fn global_line(line: Seq<char>, acc: Option<Seq<char>>) -> Option<Option<Seq<char>>> {
    if is_blank(line) || is_prefix("#"@, trim(line)) {
        Some(acc)
    } else {
        match split_once(line, '=') {
            None => None,
            Some((k0, v0)) => if trim(k0) == "root"@ {
                match unquote(trim(v0)) {
                    Some(q) => Some(Some(q)),
                    None => None,
                }
            } else {
                Some(acc)
            },
        }
    }
}

/// The lines applied in order.
pub open spec fn global_lines(lines: Seq<Seq<char>>, acc: Option<Seq<char>>) -> Option<Option<Seq<char>>>
    decreases lines.len(),
{
    if lines.len() == 0 {
        Some(acc)
    } else {
        match global_line(lines[0], acc) {
            Some(next) => global_lines(lines.drop_first(), next),
            None => None,
        }
    }
}

/// The root that global configuration text names, if the text is well
/// formed: the last `root` line wins.
pub open spec fn parse_global(text: Seq<char>) -> Option<Option<Seq<char>>> {
    global_lines(split_all(text, '\n'), None)
}

fn global_line_exec(line: &str, acc: Option<String>) -> (r: Option<Option<String>>)
    ensures
        r.deep_view() == global_line(line@, acc.deep_view()),
{
    if blank(line) || starts_with(trim_str(line), "#") {
        return Some(acc);
    }
    match split_once_char(line, '=') {
        None => None,
        Some((k0, v0)) => {
            proof {
                reveal_strlit("root");
            }
            if str_eq(trim_str(k0), "root") {
                match unquote_exec(trim_str(v0)) {
                    Some(q) => Some(Some(q)),
                    None => None,
                }
            } else {
                Some(acc)
            }
        },
    }
}

impl GlobalConfig {
    /// Reads the global configuration from its TOML text; see
    /// [`parse_global`]. A malformed line is [`Error::ConfigParse`].
    pub fn from_toml(text: &str) -> (r: Result<GlobalConfig>)
        ensures
            r is Ok <==> parse_global(text@) is Some,
            r matches Ok(c) ==> parse_global(text@) == Some(c.root.deep_view()),
            r matches Err(e) ==> e is ConfigParse,
    {
        let lines = split_all_str(text, '\n');
        let mut acc: Option<String> = None;
        let mut i: usize = 0;
        assert(lines.deep_view().subrange(0, lines.len() as int) =~= lines.deep_view());
        while i < lines.len()
            invariant
                i <= lines.len(),
                lines.deep_view() == split_all(text@, '\n'),
                global_lines(lines.deep_view(), None) == global_lines(
                    lines.deep_view().subrange(i as int, lines.len() as int),
                    acc.deep_view(),
                ),
            decreases lines.len() - i,
        {
            let ghost rest = lines.deep_view().subrange(i as int, lines.len() as int);
            assert(rest[0] == lines[i as int]@);
            assert(rest.drop_first() =~= lines.deep_view().subrange(i + 1, lines.len() as int));
            match global_line_exec(lines[i].as_str(), acc) {
                Some(next) => {
                    acc = next;
                },
                None => {
                    return Err(Error::ConfigParse(cat("unrecognized line: ", lines[i].as_str())));
                },
            }
            i = i + 1;
        }
        assert(lines.deep_view().subrange(i as int, lines.len() as int) =~= Seq::<Seq<char>>::empty());
        Ok(GlobalConfig { root: acc })
    }
}

/// The segments `segs` resolved onto `acc` in order: empty segments and `.`
/// are dropped, `..` drops the segment before it (there is none above the
/// root), any other segment is kept.
pub open spec fn resolve_segments(segs: Seq<Seq<char>>, acc: Seq<Seq<char>>) -> Seq<Seq<char>>
    decreases segs.len(),
{
    if segs.len() == 0 {
        acc
    } else {
        let s = segs[0];
        let next = if s.len() == 0 || s == "."@ {
            acc
        } else if s == ".."@ {
            if acc.len() > 0 {
                acc.drop_last()
            } else {
                acc
            }
        } else {
            acc.push(s)
        };
        resolve_segments(segs.drop_first(), next)
    }
}

/// `/` followed by the segments joined with `/`.
pub open spec fn join_absolute(parts: Seq<Seq<char>>) -> Seq<char>
    decreases parts.len(),
{
    if parts.len() == 0 {
        Seq::empty()
    } else {
        join_absolute(parts.drop_last()) + "/"@ + parts.last()
    }
}

/// An absolute path with its `.` and `..` segments resolved and repeated
/// `/` collapsed; the root alone is `/`.
pub open spec fn normalized(path: Seq<char>) -> Seq<char> {
    let parts = resolve_segments(split_all(path, '/'), Seq::empty());
    if parts.len() == 0 {
        "/"@
    } else {
        join_absolute(parts)
    }
}

proof fn lemma_resolve_step(segs: Seq<Seq<char>>, i: int, acc: Seq<Seq<char>>, next: Seq<Seq<char>>)
    requires
        0 <= i < segs.len(),
        next == (if segs[i].len() == 0 || segs[i] == "."@ {
            acc
        } else if segs[i] == ".."@ {
            if acc.len() > 0 {
                acc.drop_last()
            } else {
                acc
            }
        } else {
            acc.push(segs[i])
        }),
    ensures
        resolve_segments(segs.subrange(i, segs.len() as int), acc) == resolve_segments(
            segs.subrange(i + 1, segs.len() as int),
            next,
        ),
{
    assert(segs.subrange(i, segs.len() as int).drop_first() =~= segs.subrange(i + 1, segs.len() as int));
    assert(segs.subrange(i, segs.len() as int)[0] == segs[i]);
}

/// An absolute path with its `.` and `..` segments resolved; see
/// [`normalized`].
pub fn normalize_absolute(path: &str) -> (r: String)
    ensures
        r@ == normalized(path@),
{
    proof {
        reveal_strlit(".");
        reveal_strlit("..");
        reveal_strlit("/");
    }
    let segs = split_all_str(path, '/');
    let ghost sv = segs.deep_view();
    let mut parts: Vec<String> = Vec::new();
    let mut i: usize = 0;
    assert(sv.subrange(0, sv.len() as int) =~= sv);
    assert(parts.deep_view() =~= Seq::<Seq<char>>::empty());
    while i < segs.len()
        invariant
            i <= segs.len(),
            sv == segs.deep_view(),
            sv == split_all(path@, '/'),
            resolve_segments(sv, Seq::empty()) == resolve_segments(sv.subrange(i as int, sv.len() as int), parts.deep_view()),
        decreases segs.len() - i,
    {
        let ghost p0 = parts.deep_view();
        let s = segs[i].as_str();
        assert(sv[i as int] == s@);
        if s.unicode_len() == 0 || str_eq(s, ".") {
        } else if str_eq(s, "..") {
            if parts.len() > 0 {
                parts.pop();
                assert(parts.deep_view() =~= p0.drop_last());
            }
        } else {
            parts.push(segs[i].clone());
            assert(parts.deep_view() =~= p0.push(s@));
        }
        proof {
            lemma_resolve_step(sv, i as int, p0, parts.deep_view());
        }
        i = i + 1;
    }
    assert(sv.subrange(i as int, sv.len() as int) =~= Seq::<Seq<char>>::empty());
    let ghost pv = parts.deep_view();
    if parts.len() == 0 {
        return String::from_str("/");
    }
    let mut out = String::new();
    let mut k: usize = 0;
    assert(pv.take(0) =~= Seq::<Seq<char>>::empty());
    while k < parts.len()
        invariant
            k <= parts.len(),
            pv == parts.deep_view(),
            out@ == join_absolute(pv.take(k as int)),
        decreases parts.len() - k,
    {
        assert(pv.take(k + 1).drop_last() =~= pv.take(k as int));
        assert(pv.take(k + 1).last() == parts[k as int]@);
        out.append("/");
        out.append(parts[k].as_str());
        k = k + 1;
    }
    assert(pv.take(parts.len() as int) =~= pv);
    out
}

} // verus!
