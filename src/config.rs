//! The configuration of a run, and the reading of the configuration file:
//! lines of `key = value`, with `#` comments and blank lines.
use vstd::prelude::*;

use crate::paths::{expand_tilde_with, home_dir, tilde_expanded, PathError};
use crate::profiles::{starts_with, str_views};

verus! {

/// Where the profiles live, and the scripts that an update runs afterwards.
#[derive(Debug, Clone)]
pub struct Config {
    /// The directory that holds one directory per profile.
    pub profiles_path: String,
    /// Scripts run after every update, as given.
    pub global_scripts: Vec<String>,
    /// Scripts run after every update, relative to the profile's directory.
    pub per_profile_scripts: Vec<String>,
}

/// A white-space character: one of the Unicode `White_Space` property.
pub open spec fn is_white_space(c: char) -> bool {
    ('\u{9}' <= c && c <= '\u{d}') || c == ' ' || c == '\u{85}' || c == '\u{a0}' || c
        == '\u{1680}' || ('\u{2000}' <= c && c <= '\u{200a}') || c == '\u{2028}' || c
        == '\u{2029}' || c == '\u{202f}' || c == '\u{205f}' || c == '\u{3000}'
}

/// `s` without its leading white space.
pub open spec fn trim_start_of(s: Seq<char>) -> Seq<char>
    decreases s.len(),
{
    if s.len() > 0 && is_white_space(s[0]) {
        trim_start_of(s.skip(1))
    } else {
        s
    }
}

/// `s` without its trailing white space.
pub open spec fn trim_end_of(s: Seq<char>) -> Seq<char>
    decreases s.len(),
{
    if s.len() > 0 && is_white_space(s.last()) {
        trim_end_of(s.drop_last())
    } else {
        s
    }
}

/// `s` without its leading and trailing white space.
pub open spec fn trim_of(s: Seq<char>) -> Seq<char> {
    trim_end_of(trim_start_of(s))
}

/// The position of the first `\n` of `s`.
pub open spec fn is_first_newline(s: Seq<char>, i: int) -> bool {
    0 <= i < s.len() && s[i] == '\n' && forall|j: int| 0 <= j < i ==> s[j] != '\n'
}

/// `line` without one `\r` at its end.
pub open spec fn without_cr(line: Seq<char>) -> Seq<char> {
    if line.len() > 0 && line.last() == '\r' {
        line.drop_last()
    } else {
        line
    }
}

/// The lines of `text`: split after each `\n`, each line without its `\n`
/// and a `\r` before it; a last line without `\n` is kept as it stands, and
/// an empty text has no lines.
pub open spec fn lines_of(text: Seq<char>) -> Seq<Seq<char>>
    decreases text.len(),
{
    if text.len() == 0 {
        seq![]
    } else if exists|i: int| #[trigger] is_first_newline(text, i) {
        let i = choose|i: int| #[trigger] is_first_newline(text, i);
        seq![without_cr(text.take(i))] + lines_of(text.skip(i + 1))
    } else {
        seq![text]
    }
}

fn is_white_space_char(c: char) -> (r: bool)
    ensures
        r == is_white_space(c),
{
    ('\u{9}' <= c && c <= '\u{d}') || c == ' ' || c == '\u{85}' || c == '\u{a0}' || c
        == '\u{1680}' || ('\u{2000}' <= c && c <= '\u{200a}') || c == '\u{2028}' || c
        == '\u{2029}' || c == '\u{202f}' || c == '\u{205f}' || c == '\u{3000}'
}

/// `s` without its leading and trailing white space (see `trim_of`).
pub fn trim(s: &str) -> (r: String)
    ensures
        r@ == trim_of(s@),
{
    let n = s.unicode_len();
    let mut a: usize = 0;
    proof {
        assert(s@.skip(0) =~= s@);
    }
    while a < n && is_white_space_char(s.get_char(a))
        invariant
            n == s@.len(),
            a <= n,
            trim_start_of(s@.skip(a as int)) == trim_start_of(s@),
        decreases n - a,
    {
        assert(s@.skip(a as int).skip(1) =~= s@.skip(a + 1));
        a = a + 1;
    }
    proof {
        if a == n {
            assert(s@.skip(a as int).len() == 0);
        }
        assert(trim_start_of(s@) == s@.skip(a as int));
        assert(s@.subrange(a as int, n as int) =~= s@.skip(a as int));
    }
    let mut b: usize = n;
    while b > a && is_white_space_char(s.get_char(b - 1))
        invariant
            n == s@.len(),
            a <= b <= n,
            trim_end_of(s@.subrange(a as int, b as int)) == trim_of(s@),
        decreases b - a,
    {
        assert(s@.subrange(a as int, b as int).drop_last() =~= s@.subrange(a as int, b - 1));
        b = b - 1;
    }
    proof {
        if b == a {
            assert(s@.subrange(a as int, b as int).len() == 0);
        }
    }
    s.substring_char(a, b).to_owned()
}

/// The lines of `text` (see `lines_of`).
pub fn split_lines(text: &str) -> (r: Vec<String>)
    ensures
        str_views(r@) == lines_of(text@),
{
    let n = text.unicode_len();
    let mut r: Vec<String> = Vec::new();
    let mut start: usize = 0;
    let mut i: usize = 0;
    proof {
        assert(text@.skip(0) =~= text@);
    }
    while i < n
        invariant
            n == text@.len(),
            start <= i <= n,
            forall|j: int| start <= j < i ==> text@[j] != '\n',
            str_views(r@) + lines_of(text@.skip(start as int)) == lines_of(text@),
        decreases n - i,
    {
        if text.get_char(i) == '\n' {
            let ghost rest = text@.skip(start as int);
            let ghost prev = r@;
            let mut end = i;
            if end > start && text.get_char(end - 1) == '\r' {
                end = end - 1;
            }
            let line = text.substring_char(start, end).to_owned();
            r.push(line);
            proof {
                let k = (i - start) as int;
                assert(is_first_newline(rest, k));
                let c = choose|c: int| #[trigger] is_first_newline(rest, c);
                assert(c == k);
                assert(rest.skip(k + 1) =~= text@.skip(i + 1));
                assert(rest.take(k) =~= text@.subrange(start as int, i as int));
                assert(line@ =~= without_cr(rest.take(k)));
                assert(str_views(r@) =~= str_views(prev).push(line@));
                assert(str_views(r@) + lines_of(text@.skip(i + 1)) =~= str_views(prev) + (seq![
                    line@,
                ] + lines_of(text@.skip(i + 1))));
            }
            start = i + 1;
        }
        i = i + 1;
    }
    if start < n {
        let ghost rest = text@.skip(start as int);
        let ghost prev = r@;
        let line = text.substring_char(start, n).to_owned();
        r.push(line);
        proof {
            assert(line@ =~= rest);
            assert(!exists|c: int| #[trigger] is_first_newline(rest, c));
            assert(str_views(r@) =~= str_views(prev).push(line@));
            assert(str_views(r@) =~= str_views(prev) + seq![rest]);
        }
    } else {
        proof {
            assert(text@.skip(start as int).len() == 0);
            assert(str_views(r@) + seq![] =~= str_views(r@));
        }
    }
    r
}

/// The position of the first `=` of `t`.
pub open spec fn is_first_eq(t: Seq<char>, i: int) -> bool {
    0 <= i < t.len() && t[i] == '=' && forall|j: int| 0 <= j < i ==> t[j] != '='
}

/// The key and the value that a line sets: none for a blank line, a comment,
/// or a line without `=`; else what stands before the first `=` and what
/// follows it, each trimmed.
pub open spec fn setting_of(line: Seq<char>) -> Option<(Seq<char>, Seq<char>)> {
    let t = trim_of(line);
    if t.len() == 0 || t[0] == '#' {
        None
    } else if exists|i: int| #[trigger] is_first_eq(t, i) {
        let i = choose|i: int| #[trigger] is_first_eq(t, i);
        Some((trim_of(t.take(i)), trim_of(t.skip(i + 1))))
    } else {
        None
    }
}

/// The values that `lines` give to `key`, in order.
pub open spec fn values_of(lines: Seq<Seq<char>>, key: Seq<char>) -> Seq<Seq<char>>
    decreases lines.len(),
{
    if lines.len() == 0 {
        seq![]
    } else {
        let rest = values_of(lines.drop_last(), key);
        match setting_of(lines.last()) {
            Some(kv) => if kv.0 == key {
                rest.push(kv.1)
            } else {
                rest
            },
            None => rest,
        }
    }
}

/// The profiles directory that `lines` set: the first value of
/// `profiles_path`, or `~/.config/dotswitch/profiles/`, with `~/` expanded
/// to `home`.
pub open spec fn profiles_path_of(lines: Seq<Seq<char>>, home: Seq<char>) -> Seq<char> {
    let vs = values_of(lines, "profiles_path"@);
    tilde_expanded(
        if vs.len() > 0 {
            vs[0]
        } else {
            "~/.config/dotswitch/profiles/"@
        },
        home,
    )
}

/// The configuration that `lines` give, with `~/` expanded to `home`.
pub open spec fn config_matches(c: Config, lines: Seq<Seq<char>>, home: Seq<char>) -> bool {
    &&& c.profiles_path@ == profiles_path_of(lines, home)
    &&& str_views(c.global_scripts@) == values_of(lines, "global_script"@)
    &&& str_views(c.per_profile_scripts@) == values_of(lines, "per_profile_script"@)
}

fn same_text(a: &str, b: &str) -> (r: bool)
    ensures
        r == (a@ == b@),
{
    if a.unicode_len() != b.unicode_len() {
        return false;
    }
    let r = starts_with(a, b);
    assert(a@.subrange(0, b@.len() as int) =~= a@);
    r
}

/// The key and the value that `line` sets (see `setting_of`).
pub fn parse_setting(line: &str) -> (r: Option<(String, String)>)
    ensures
        r matches Some(kv) ==> setting_of(line@) == Some((kv.0@, kv.1@)),
        r is None ==> setting_of(line@) is None,
{
    let t = trim(line);
    let n = t.as_str().unicode_len();
    if n == 0 || t.as_str().get_char(0) == '#' {
        return None;
    }
    let mut i: usize = 0;
    while i < n
        invariant
            n == t@.len(),
            t@ == trim_of(line@),
            n > 0 && t@[0] != '#',
            i <= n,
            forall|j: int| 0 <= j < i ==> t@[j] != '=',
        decreases n - i,
    {
        if t.as_str().get_char(i) == '=' {
            proof {
                assert(trim_of(line@) == t@);
                assert(t@.len() > 0 && t@[0] != '#');
                assert(is_first_eq(t@, i as int));
                assert(exists|k: int| #[trigger] is_first_eq(t@, k));
                let k = choose|k: int| #[trigger] is_first_eq(t@, k);
                assert(k == i as int);
            }
            let key = trim(t.as_str().substring_char(0, i));
            let value = trim(t.as_str().substring_char(i + 1, n));
            assert(t@.subrange(0, i as int) =~= t@.take(i as int));
            assert(t@.subrange(i + 1, n as int) =~= t@.skip(i + 1));
            assert(setting_of(line@) == Some((trim_of(t@.take(i as int)), trim_of(t@.skip(i + 1)))));
            return Some((key, value));
        }
        i = i + 1;
    }
    None
}

/// The configuration that `lines` give, with `~/` in the profiles directory
/// expanded to `home`: the first `profiles_path` (or the default), and every
/// `global_script` and `per_profile_script` in order. Other keys are passed
/// over.
pub fn config_from_lines(lines: &Vec<String>, home: &str) -> (r: Config)
    ensures
        config_matches(r, str_views(lines@), home@),
{
    let ghost ls = str_views(lines@);
    let mut profiles: Vec<String> = Vec::new();
    let mut global_scripts: Vec<String> = Vec::new();
    let mut per_profile_scripts: Vec<String> = Vec::new();
    let mut i: usize = 0;
    while i < lines.len()
        invariant
            i <= lines.len(),
            ls == str_views(lines@),
            str_views(profiles@) == values_of(ls.subrange(0, i as int), "profiles_path"@),
            str_views(global_scripts@) == values_of(ls.subrange(0, i as int), "global_script"@),
            str_views(per_profile_scripts@) == values_of(
                ls.subrange(0, i as int),
                "per_profile_script"@,
            ),
        decreases lines.len() - i,
    {
        let ghost (p0, g0, q0) = (profiles@, global_scripts@, per_profile_scripts@);
        proof {
            reveal_strlit("profiles_path");
            reveal_strlit("global_script");
            reveal_strlit("per_profile_script");
            assert("profiles_path"@[0] != "global_script"@[0]);
            assert("profiles_path"@.len() != "per_profile_script"@.len());
            assert("global_script"@.len() != "per_profile_script"@.len());
            assert(ls.subrange(0, i + 1).drop_last() =~= ls.subrange(0, i as int));
            assert(ls.subrange(0, i + 1).last() == lines@[i as int]@);
        }
        match parse_setting(lines[i].as_str()) {
            Some((key, value)) => {
                if same_text(key.as_str(), "profiles_path") {
                    profiles.push(value);
                    assert(str_views(profiles@) =~= str_views(p0).push(value@));
                } else if same_text(key.as_str(), "global_script") {
                    global_scripts.push(value);
                    assert(str_views(global_scripts@) =~= str_views(g0).push(value@));
                } else if same_text(key.as_str(), "per_profile_script") {
                    per_profile_scripts.push(value);
                    assert(str_views(per_profile_scripts@) =~= str_views(q0).push(value@));
                }
            },
            None => {},
        }
        i = i + 1;
    }
    assert(ls.subrange(0, lines.len() as int) =~= ls);
    let profiles_path = if profiles.len() > 0 {
        expand_tilde_with(profiles[0].as_str(), home)
    } else {
        expand_tilde_with("~/.config/dotswitch/profiles/", home)
    };
    Config { profiles_path, global_scripts, per_profile_scripts }
}

/// The configuration that the text of a configuration file gives (see
/// `config_from_lines`), with `~/` expanded to the home directory of the user;
/// fails where the home directory cannot be determined.
pub fn parse_config(text: &str) -> (r: Result<Config, PathError>)
    ensures
        match r {
            Ok(c) => exists|home: Seq<char>| #[trigger] config_matches(c, lines_of(text@), home),
            Err(e) => e == PathError::HomeUnknown,
        },
{
    let lines = split_lines(text);
    match home_dir() {
        Some(home) => {
            let c = config_from_lines(&lines, home.as_str());
            let r = Ok(c);
            assert(config_matches(r->Ok_0, lines_of(text@), home@));
            r
        },
        None => Err(PathError::HomeUnknown),
    }
}

} // verus!
