//! The repo configuration held in `rdm.toml`, and its TOML form.
use vstd::prelude::*;

use crate::error::{Error, Result};
use crate::text::{
    blank, cat, cat3, has_char, is_blank, lemma_split_all_cons, lemma_split_all_none, owned,
    split_all, split_all_str, split_once, split_once_char, str_eq, trim, trim_end, trim_start,
    trim_str,
};

verus! {

/// Repo-wide settings.
#[derive(Clone, Debug, PartialEq, Eq)]
pub struct Config {
    /// Project used when a command names none.
    pub default_project: Option<String>,
    /// Output format used when a command names none: `human` or `json`.
    pub default_format: Option<String>,
    /// Whether changes are staged rather than committed.
    pub stage: Option<bool>,
}

/// Spec view of a configuration.
pub struct ConfigView {
    pub default_project: Option<Seq<char>>,
    pub default_format: Option<Seq<char>>,
    pub stage: Option<bool>,
}

impl View for Config {
    type V = ConfigView;

    open spec fn view(&self) -> ConfigView {
        ConfigView {
            default_project: self.default_project.deep_view(),
            default_format: self.default_format.deep_view(),
            stage: self.stage,
        }
    }
}

/// The configuration with nothing set.
pub open spec fn empty_config() -> ConfigView {
    ConfigView { default_project: None, default_format: None, stage: None }
}

impl Default for Config {
    fn default() -> (r: Config)
        ensures
            r@ == empty_config(),
    {
        Config { default_project: None, default_format: None, stage: None }
    }
}

/// The output formats a configuration may name.
pub open spec fn known_format(f: Seq<char>) -> bool {
    f == "human"@ || f == "json"@
}

impl Config {
    /// Checks the values that have a fixed set of spellings.
    pub fn validate(&self) -> (r: Result<()>)
        ensures
            r is Ok <==> (self.default_format matches Some(f) ==> known_format(f@)),
            r matches Err(e) ==> (e matches Error::InvalidConfigValue { key, value } && key@
                == "default_format"@ && self.default_format.deep_view() == Some(value@)),
    {
        match &self.default_format {
            Some(f) => {
                if str_eq(f.as_str(), "human") || str_eq(f.as_str(), "json") {
                    Ok(())
                } else {
                    Err(
                        Error::InvalidConfigValue {
                            key: owned("default_format"),
                            value: owned(f.as_str()),
                        },
                    )
                }
            },
            None => Ok(()),
        }
    }

    /// The TOML text of this configuration; see [`render_config`].
    pub fn to_toml(&self) -> (r: Result<String>)
        ensures
            r matches Ok(t) && t@ == render_config(self@),
    {
        let mut s = String::new();
        match &self.default_project {
            Some(v) => {
                let line = quoted_line("default_project", v.as_str());
                s.append(line.as_str());
            },
            None => {},
        }
        match &self.default_format {
            Some(v) => {
                let line = quoted_line("default_format", v.as_str());
                s.append(line.as_str());
            },
            None => {},
        }
        match self.stage {
            Some(true) => s.append("stage = true\n"),
            Some(false) => s.append("stage = false\n"),
            None => {},
        }
        assert(s@ == render_config(self@));
        Ok(s)
    }

    /// Parses TOML text; see [`parse_config`].
    pub fn from_toml(text: &str) -> (r: Result<Config>)
        ensures
            r is Ok <==> parse_config(text@) is Some,
            r matches Ok(c) ==> parse_config(text@) == Some(c@),
            r matches Err(e) ==> e is ConfigParse,
    {
        let lines = split_all_str(text, '\n');
        let mut acc = Config { default_project: None, default_format: None, stage: None };
        let mut i: usize = 0;
        assert(lines.deep_view().subrange(0, lines.len() as int) =~= lines.deep_view());
        assert(acc@ == empty_config());
        while i < lines.len()
            invariant
                i <= lines.len(),
                lines.deep_view() == split_all(text@, '\n'),
                parse_lines(lines.deep_view(), empty_config()) == parse_lines(
                    lines.deep_view().subrange(i as int, lines.len() as int),
                    acc@,
                ),
            decreases lines.len() - i,
        {
            let ghost rest = lines.deep_view().subrange(i as int, lines.len() as int);
            assert(rest[0] == lines[i as int]@);
            assert(rest.drop_first() =~= lines.deep_view().subrange(i + 1, lines.len() as int));
            match parse_line_exec(lines[i].as_str(), acc) {
                Some(next) => {
                    acc = next;
                },
                None => {
                    return Err(Error::ConfigParse(cat("unrecognized line: ", lines[i].as_str())));
                },
            }
            i = i + 1;
        }
        assert(lines.deep_view().subrange(i as int, lines.len() as int) =~= Seq::<Seq<char>>::empty());
        Ok(acc)
    }
}

/// A `key = "value"` line.
pub open spec fn quoted_line_spec(key: Seq<char>, value: Seq<char>) -> Seq<char> {
    key + " = \""@ + value + "\"\n"@
}

fn quoted_line(key: &str, value: &str) -> (r: String)
    ensures
        r@ == quoted_line_spec(key@, value@),
{
    let mut s = cat3(key, " = \"", value);
    s.append("\"\n");
    s
}

/// The TOML text of a configuration: one line per field that is set.
pub open spec fn render_config(c: ConfigView) -> Seq<char> {
    (match c.default_project {
        Some(v) => quoted_line_spec("default_project"@, v),
        None => Seq::empty(),
    }) + (match c.default_format {
        Some(v) => quoted_line_spec("default_format"@, v),
        None => Seq::empty(),
    }) + (match c.stage {
        Some(true) => "stage = true\n"@,
        Some(false) => "stage = false\n"@,
        None => Seq::empty(),
    })
}

/// The inside of a `"…"` value.
pub open spec fn unquote(v: Seq<char>) -> Option<Seq<char>> {
    if v.len() >= 2 && v[0] == '"' && v.last() == '"' {
        Some(v.subrange(1, v.len() - 1))
    } else {
        None
    }
}

/// One line applied to the configuration read so far: blank lines change
/// nothing, `key = value` sets a known key, anything else is refused.
pub open spec fn parse_line(line: Seq<char>, acc: ConfigView) -> Option<ConfigView> {
    if is_blank(line) {
        Some(acc)
    } else {
        match split_once(line, '=') {
            None => None,
            Some((k0, v0)) => {
                let k = trim(k0);
                let v = trim(v0);
                if k == "default_project"@ {
                    match unquote(v) {
                        Some(q) => Some(ConfigView { default_project: Some(q), ..acc }),
                        None => None,
                    }
                } else if k == "default_format"@ {
                    match unquote(v) {
                        Some(q) => Some(ConfigView { default_format: Some(q), ..acc }),
                        None => None,
                    }
                } else if k == "stage"@ {
                    if v == "true"@ {
                        Some(ConfigView { stage: Some(true), ..acc })
                    } else if v == "false"@ {
                        Some(ConfigView { stage: Some(false), ..acc })
                    } else {
                        None
                    }
                } else {
                    None
                }
            },
        }
    }
}

/// The lines applied in order.
pub open spec fn parse_lines(lines: Seq<Seq<char>>, acc: ConfigView) -> Option<ConfigView>
    decreases lines.len(),
{
    if lines.len() == 0 {
        Some(acc)
    } else {
        match parse_line(lines[0], acc) {
            Some(next) => parse_lines(lines.drop_first(), next),
            None => None,
        }
    }
}

/// The configuration TOML text describes, starting from nothing set.
pub open spec fn parse_config(text: Seq<char>) -> Option<ConfigView> {
    parse_lines(split_all(text, '\n'), empty_config())
}

pub(crate) fn unquote_exec(v: &str) -> (r: Option<String>)
    ensures
        r.deep_view() == unquote(v@),
{
    let n = v.unicode_len();
    if n >= 2 && v.get_char(0) == '"' && v.get_char(n - 1) == '"' {
        Some(owned(v.substring_char(1, n - 1)))
    } else {
        None
    }
}

fn parse_line_exec(line: &str, acc: Config) -> (r: Option<Config>)
    ensures
        r matches Some(c) ==> parse_line(line@, acc@) == Some(c@),
        r is None ==> parse_line(line@, acc@) is None,
{
    if blank(line) {
        return Some(acc);
    }
    match split_once_char(line, '=') {
        None => None,
        Some((k0, v0)) => {
            let k = trim_str(k0);
            let v = trim_str(v0);
            if str_eq(k, "default_project") {
                match unquote_exec(v) {
                    Some(q) => Some(Config { default_project: Some(q), ..acc }),
                    None => None,
                }
            } else if str_eq(k, "default_format") {
                match unquote_exec(v) {
                    Some(q) => Some(Config { default_format: Some(q), ..acc }),
                    None => None,
                }
            } else if str_eq(k, "stage") {
                if str_eq(v, "true") {
                    Some(Config { stage: Some(true), ..acc })
                } else if str_eq(v, "false") {
                    Some(Config { stage: Some(false), ..acc })
                } else {
                    None
                }
            } else {
                None
            }
        },
    }
}

/// Whether `s` has no line break, so that it stays on one TOML line.
pub open spec fn single_line(s: Seq<char>) -> bool {
    !has_char(s, '\n')
}

proof fn lemma_quoted_line(key: Seq<char>, v: Seq<char>)
    requires
        key.len() > 0,
        !has_char(key, '='),
        !has_char(key, '\n'),
        !crate::text::is_space(key[0]),
        !crate::text::is_space(key.last()),
        single_line(v),
    ensures
        quoted_line_spec(key, v) == (key + " = \""@ + v + "\""@) + seq!['\n'],
        !has_char(key + " = \""@ + v + "\""@, '\n'),
        !is_blank(key + " = \""@ + v + "\""@),
        split_once(key + " = \""@ + v + "\""@, '=') == Some((key + seq![' '], seq![' ', '"'] + v + seq!['"'])),
        trim(key + seq![' ']) == key,
        trim(seq![' ', '"'] + v + seq!['"']) == seq!['"'] + v + seq!['"'],
        unquote(seq!['"'] + v + seq!['"']) == Some(v),
{
    reveal_strlit(" = \"");
    reveal_strlit("\"");
    reveal_strlit("\"\n");
    let line = key + " = \""@ + v + "\""@;
    assert(" = \""@ =~= seq![' ', '=', ' ', '"']);
    assert("\""@ =~= seq!['"']);
    assert("\"\n"@ =~= seq!['"', '\n']);
    assert(quoted_line_spec(key, v) =~= line + seq!['\n']);
    assert(line =~= key + seq![' ', '=', ' ', '"'] + v + seq!['"']);
    assert forall|i: int| 0 <= i < line.len() implies line[i] != '\n' by {
        if i < key.len() {
            assert(line[i] == key[i]);
        } else if i < key.len() + 4 {
        } else if i < key.len() + 4 + v.len() {
            assert(line[i] == v[i - key.len() - 4]);
        }
    }
    assert(!crate::text::is_space(line[0]));
    let e = key.len() as int + 1;
    assert(line[e] == '=');
    assert forall|j: int| 0 <= j < e implies line[j] != '=' by {
        if j < key.len() {
            assert(line[j] == key[j]);
        }
    }
    crate::text::lemma_first_index_at(line, '=', e);
    assert(line.subrange(0, e) =~= key + seq![' ']);
    assert(line.subrange(e + 1, line.len() as int) =~= seq![' ', '"'] + v + seq!['"']);
    let k1 = key + seq![' '];
    assert(trim_start(k1) == k1);
    assert(k1.drop_last() =~= key);
    assert(trim_end(k1) == trim_end(key));
    assert(trim_end(key) == key);
    let v1 = seq![' ', '"'] + v + seq!['"'];
    let v2 = seq!['"'] + v + seq!['"'];
    assert(v1.drop_first() =~= v2);
    assert(trim_start(v2) == v2);
    assert(trim_start(v1) == v2);
    assert(trim_end(v2) == v2);
    assert(v2.subrange(1, v2.len() - 1) =~= v);
}

/// The stage line of a configuration's text.
pub open spec fn stage_text(stage: Option<bool>) -> Seq<char> {
    match stage {
        Some(true) => "stage = true\n"@,
        Some(false) => "stage = false\n"@,
        None => Seq::empty(),
    }
}

proof fn lemma_stage_lines(stage: Option<bool>, acc: ConfigView)
    ensures
        parse_lines(split_all(stage_text(stage), '\n'), acc) == Some(
            ConfigView { stage: stage, ..acc },
        ) || (stage is None && parse_lines(split_all(stage_text(stage), '\n'), acc) == Some(acc)),
{
    reveal_strlit("stage = true\n");
    reveal_strlit("stage = false\n");
    reveal_strlit("stage");
    reveal_strlit("true");
    reveal_strlit("false");
    reveal_strlit("default_project");
    reveal_strlit("default_format");
    let e = Seq::<char>::empty();
    lemma_split_all_none(e, '\n');
    assert(is_blank(e));
    assert(seq![e].drop_first() =~= Seq::<Seq<char>>::empty());
    let k5 = seq!['s', 't', 'a', 'g', 'e'];
    match stage {
        Some(b) => {
            let w = if b {
                seq!['t', 'r', 'u', 'e']
            } else {
                seq!['f', 'a', 'l', 's', 'e']
            };
            let a = k5 + seq![' ', '=', ' '] + w;
            assert(stage_text(stage) =~= a + seq!['\n'] + e);
            assert forall|i: int| 0 <= i < a.len() implies a[i] != '\n' by {
                if i >= 8 {
                    assert(a[i] == w[i - 8]);
                }
            }
            lemma_split_all_cons(a, '\n', e);
            let lines = split_all(stage_text(stage), '\n');
            assert(lines =~= seq![a, e]);
            crate::text::lemma_first_index_at(a, '=', 6);
            let k6 = a.subrange(0, 6);
            let w1 = a.subrange(7, a.len() as int);
            assert(k6 =~= k5 + seq![' ']);
            assert(w1 =~= seq![' '] + w);
            assert(!is_blank(a));
            assert(k6.drop_last() =~= k5);
            assert(trim_start(k6) == k6);
            assert(trim_end(k5) == k5);
            assert(trim(k6) =~= "stage"@);
            assert(w1.drop_first() =~= w);
            assert(trim_start(w) == w);
            assert(trim_end(w) == w);
            if b {
                assert(trim(w1) =~= "true"@);
            } else {
                assert(trim(w1) =~= "false"@);
            }
            let next = ConfigView { stage: stage, ..acc };
            assert(parse_line(a, acc) == Some(next));
            assert(seq![a, e].drop_first() =~= seq![e]);
            assert(parse_lines(Seq::<Seq<char>>::empty(), next) == Some(next));
            assert(parse_lines(seq![e], next) == Some(next));
        },
        None => {
            assert(stage_text(stage) =~= e);
            assert(parse_lines(Seq::<Seq<char>>::empty(), acc) == Some(acc));
        },
    }
}

proof fn lemma_quoted_prefix(key: Seq<char>, v: Seq<char>, rest: Seq<char>, acc: ConfigView)
    requires
        key == "default_project"@ || key == "default_format"@,
        single_line(v),
    ensures
        split_all(quoted_line_spec(key, v) + rest, '\n') == seq![key + " = \""@ + v + "\""@]
            + split_all(rest, '\n'),
        parse_line(key + " = \""@ + v + "\""@, acc) == Some(
            if key == "default_project"@ {
                ConfigView { default_project: Some(v), ..acc }
            } else {
                ConfigView { default_format: Some(v), ..acc }
            },
        ),
{
    reveal_strlit("default_project");
    reveal_strlit("default_format");
    assert(key.len() > 0);
    assert(!has_char(key, '=')) by {
        assert forall|i: int| 0 <= i < key.len() implies key[i] != '=' by {}
    }
    assert(!has_char(key, '\n')) by {
        assert forall|i: int| 0 <= i < key.len() implies key[i] != '\n' by {}
    }
    lemma_quoted_line(key, v);
    let b = key + " = \""@ + v + "\""@;
    assert(quoted_line_spec(key, v) + rest =~= b + seq!['\n'] + rest);
    lemma_split_all_cons(b, '\n', rest);
    assert(seq!['"'] + v + seq!['"'] == seq!['"'] + v + seq!['"']);
}

/// Reading back the TOML text of a configuration gives that configuration,
/// for every configuration whose text values each fit on one line.
pub proof fn lemma_config_round_trip(c: ConfigView)
    requires
        c.default_project matches Some(v) ==> single_line(v),
        c.default_format matches Some(v) ==> single_line(v),
    ensures
        parse_config(render_config(c)) == Some(c),
{
    reveal_strlit("default_project");
    reveal_strlit("default_format");
    let e = Seq::<char>::empty();
    let st = stage_text(c.stage);
    let c1 = match c.default_project {
        Some(v) => ConfigView { default_project: Some(v), ..empty_config() },
        None => empty_config(),
    };
    let c2 = match c.default_format {
        Some(v) => ConfigView { default_format: Some(v), ..c1 },
        None => c1,
    };
    lemma_stage_lines(c.stage, c2);
    assert(parse_lines(split_all(st, '\n'), c2) == Some(c));
    let mid = (match c.default_format {
        Some(v) => quoted_line_spec("default_format"@, v),
        None => e,
    }) + st;
    match c.default_format {
        Some(v) => {
            lemma_quoted_prefix("default_format"@, v, st, c1);
            let lines = split_all(mid, '\n');
            assert(lines[0] == "default_format"@ + " = \""@ + v + "\""@);
            assert(lines.drop_first() =~= split_all(st, '\n'));
        },
        None => {
            assert(mid =~= st);
        },
    }
    assert(parse_lines(split_all(mid, '\n'), c1) == Some(c));
    let all = render_config(c);
    match c.default_project {
        Some(v) => {
            assert(all =~= quoted_line_spec("default_project"@, v) + mid);
            lemma_quoted_prefix("default_project"@, v, mid, empty_config());
            let lines = split_all(all, '\n');
            assert(lines[0] == "default_project"@ + " = \""@ + v + "\""@);
            assert(lines.drop_first() =~= split_all(mid, '\n'));
        },
        None => {
            assert(all =~= mid);
        },
    }
}

} // verus!
