//! Paths as strings: joining, and the expansion of `~/` to the home directory.
use vstd::prelude::*;

verus! {

/// `base` joined with `part` the way a path is extended by one more part: an
/// absolute `part` replaces `base`, an empty `base` gives `part`, and one `/`
/// separates the two otherwise.
pub open spec fn joined(base: Seq<char>, part: Seq<char>) -> Seq<char> {
    if part.len() > 0 && part[0] == '/' {
        part
    } else if base.len() == 0 {
        part
    } else if base.last() == '/' {
        base + part
    } else {
        base + seq!['/'] + part
    }
}

/// Every `~/` of `s`, taken from left to right without overlap, replaced by
/// `home` followed by `/`.
pub open spec fn tilde_expanded(s: Seq<char>, home: Seq<char>) -> Seq<char>
    decreases s.len(),
{
    if s.len() < 2 {
        s
    } else if s[0] == '~' && s[1] == '/' {
        home + seq!['/'] + tilde_expanded(s.skip(2), home)
    } else {
        seq![s[0]] + tilde_expanded(s.skip(1), home)
    }
}

/// Errors of path resolution.
#[derive(Debug, Clone, Copy, PartialEq, Eq, Structural)]
pub enum PathError {
    /// The home directory of the user could not be determined.
    HomeUnknown,
}

/// Joins `part` onto `base` (see `joined`).
pub fn join_path(base: &str, part: &str) -> (r: String)
    ensures
        r@ == joined(base@, part@),
{
    let n = part.unicode_len();
    if n > 0 && part.get_char(0) == '/' {
        return part.to_owned();
    }
    let m = base.unicode_len();
    if m == 0 {
        return part.to_owned();
    }
    let mut r = base.to_owned();
    if base.get_char(m - 1) != '/' {
        proof {
            reveal_strlit("/");
        }
        r.append("/");
    }
    r.append(part);
    r
}

/// Replaces every `~/` in `path` by `home` followed by `/`.
pub fn expand_tilde_with(path: &str, home: &str) -> (r: String)
    ensures
        r@ == tilde_expanded(path@, home@),
{
    let n = path.unicode_len();
    let mut r = String::new();
    let mut i: usize = 0;
    proof {
        reveal_strlit("/");
        assert(path@.skip(0) =~= path@);
    }
    while i < n
        invariant
            n == path@.len(),
            i <= n,
            r@ + tilde_expanded(path@.skip(i as int), home@) == tilde_expanded(path@, home@),
        decreases n - i,
    {
        let rest = Ghost(path@.skip(i as int));
        let prev = Ghost(r@);
        if i + 1 < n && path.get_char(i) == '~' && path.get_char(i + 1) == '/' {
            r.append(home);
            r.append("/");
            proof {
                reveal_strlit("/");
                assert(r@ =~= prev@ + home@ + seq!['/']);
                assert(rest@.skip(2) =~= path@.skip(i + 2));
                assert(r@ + tilde_expanded(rest@.skip(2), home@) =~= prev@ + (home@ + seq!['/']
                    + tilde_expanded(rest@.skip(2), home@)));
            }
            i = i + 2;
        } else {
            let c = path.substring_char(i, i + 1);
            r.append(c);
            proof {
                if rest@.len() >= 2 {
                    assert(rest@.skip(1) =~= path@.skip(i + 1));
                    assert(r@ + tilde_expanded(path@.skip(i + 1), home@) =~= prev@ + (seq![rest@[0]]
                        + tilde_expanded(rest@.skip(1), home@)));
                } else {
                    assert(path@.skip(i + 1).len() == 0);
                    assert(rest@ =~= c@);
                }
            }
            i = i + 1;
        }
    }
    proof {
        assert(path@.skip(n as int).len() == 0);
        assert(r@ + tilde_expanded(path@.skip(n as int), home@) =~= r@);
    }
    r
}

/// Relies on dirs::home_dir: the home directory of the user, where the
/// platform knows one. It depends on the environment, so nothing is stated of it.
#[verifier::external_body]
pub(crate) fn home_dir() -> (r: Option<String>) {
    match dirs::home_dir() {
        Some(h) => Some(h.display().to_string()),
        None => None,
    }
}

/// Replaces every `~/` in `path` by the home directory of the user followed
/// by `/`; fails where the home directory cannot be determined.
pub fn expand_tilde(path: &str) -> (r: Result<String, PathError>)
    ensures
        r matches Ok(s) ==> exists|home: Seq<char>| s@ == tilde_expanded(path@, home),
        r matches Err(e) ==> e == PathError::HomeUnknown,
{
    match home_dir() {
        Some(home) => Ok(expand_tilde_with(path, home.as_str())),
        None => Err(PathError::HomeUnknown),
    }
}

} // verus!
