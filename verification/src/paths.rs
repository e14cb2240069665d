//! A plain-text model of file paths.
//!
//! The orchestrator works on paths as UTF-8 strings with `/` as the
//! separator. A path is absolute when it starts with `/`; the extension of
//! a path is the part of its final component after the last `.`, provided
//! that dot is not the component's first character (so a leading-dot name
//! such as `.config` has no extension).

use vstd::prelude::*;

verus! {

/// A path is absolute when it starts with the separator.
pub open spec fn is_absolute_path(p: Seq<char>) -> bool {
    p.len() > 0 && p[0] == '/'
}

/// Index of the dot that starts the extension of `p`, or -1 when `p` has
/// no extension. Scanning from the end: the first `/` ends the search; a
/// `.` qualifies only when it is neither the first character of the final
/// component nor the first character of the whole path.
pub open spec fn ext_dot_at(p: Seq<char>) -> int
    decreases p.len(),
{
    if p.len() == 0 {
        -1
    } else if p[p.len() - 1] == '/' {
        -1
    } else if p[p.len() - 1] == '.' {
        if p.len() >= 2 && p[p.len() - 2] != '/' {
            p.len() - 1
        } else {
            -1
        }
    } else {
        ext_dot_at(p.drop_last())
    }
}

/// `p` with its extension (and the dot before it) removed.
pub open spec fn spec_strip_extension(p: Seq<char>) -> Seq<char> {
    if ext_dot_at(p) < 0 {
        p
    } else {
        p.take(ext_dot_at(p))
    }
}

/// `p` with its extension replaced by `ext`; an empty `ext` removes the
/// extension altogether.
pub open spec fn spec_with_extension(p: Seq<char>, ext: Seq<char>) -> Seq<char> {
    if ext.len() == 0 {
        spec_strip_extension(p)
    } else {
        spec_strip_extension(p) + seq!['.'] + ext
    }
}

/// `rel` appended under `dir`, inserting a separator unless `dir` is empty
/// or already ends with one.
pub open spec fn spec_join(dir: Seq<char>, rel: Seq<char>) -> Seq<char> {
    if dir.len() == 0 {
        rel
    } else if dir[dir.len() - 1] == '/' {
        dir + rel
    } else {
        dir + seq!['/'] + rel
    }
}

/// Whether `path` is absolute.
pub fn is_absolute(path: &str) -> (r: bool)
    ensures
        r == is_absolute_path(path@),
{
    let n: usize = path.unicode_len();
    if n == 0 {
        false
    } else {
        path.get_char(0) == '/'
    }
}

/// Index of the dot that starts the extension of `path`, if any.
fn extension_dot(path: &str) -> (r: Option<usize>)
    ensures
        match r {
            Option::None => ext_dot_at(path@) == -1,
            Option::Some(j) => 0 <= j < path@.len() && ext_dot_at(path@) == j,
        },
{
    let ghost p = path@;
    let n: usize = path.unicode_len();
    let mut i: usize = n;
    let mut result: Option<usize> = None;
    proof {
        assert(p.take(n as int) =~= p);
    }
    while i > 0
        invariant_except_break
            i <= n,
            n == p.len(),
            path@ == p,
            result is None,
            ext_dot_at(p) == ext_dot_at(p.take(i as int)),
        ensures
            path@ == p,
            match result {
                Option::None => ext_dot_at(p) == -1,
                Option::Some(j) => 0 <= j < p.len() && ext_dot_at(p) == j,
            },
        decreases i,
    {
        let c = path.get_char(i - 1);
        if c == '/' {
            proof {
                assert(p.take(i as int).len() == i);
                assert(p.take(i as int)[i - 1] == '/');
            }
            break;
        } else if c == '.' {
            proof {
                assert(p.take(i as int).len() == i);
                assert(p.take(i as int)[i - 1] == '.');
            }
            if i >= 2 {
                if path.get_char(i - 2) != '/' {
                    result = Some(i - 1);
                    proof {
                        assert(p.take(i as int)[i - 2] == p[i - 2]);
                    }
                } else {
                    proof {
                        assert(p.take(i as int)[i - 2] == p[i - 2]);
                    }
                }
            }
            break;
        } else {
            i = i - 1;
            proof {
                assert(p.take(i + 1).drop_last() =~= p.take(i as int));
            }
        }
    }
    result
}

/// `path` with its extension replaced by `ext`; an empty `ext` removes the
/// extension.
pub fn with_extension(path: &str, ext: &str) -> (r: String)
    ensures
        r@ == spec_with_extension(path@, ext@),
{
    let dot = extension_dot(path);
    let stem: &str = match dot {
        Some(j) => path.substring_char(0, j),
        None => path,
    };
    let mut out: String = stem.to_owned();
    if ext.unicode_len() > 0 {
        proof {
            reveal_strlit(".");
            assert("."@ =~= seq!['.']);
        }
        out.append(".");
        out.append(ext);
        proof {
            assert(out@ =~= spec_strip_extension(path@) + seq!['.'] + ext@);
        }
    }
    out
}

/// `path` with its extension (and the dot before it) removed.
pub fn strip_extension(path: &str) -> (r: String)
    ensures
        r@ == spec_strip_extension(path@),
{
    proof {
        reveal_strlit("");
        assert(""@.len() == 0);
    }
    with_extension(path, "")
}

/// `rel` appended under `dir`.
pub fn join(dir: &str, rel: &str) -> (r: String)
    ensures
        r@ == spec_join(dir@, rel@),
{
    let n: usize = dir.unicode_len();
    if n == 0 {
        return rel.to_owned();
    }
    let mut out: String = dir.to_owned();
    if dir.get_char(n - 1) != '/' {
        proof {
            reveal_strlit("/");
            assert("/"@ =~= seq!['/']);
        }
        out.append("/");
    }
    out.append(rel);
    proof {
        assert(out@ =~= spec_join(dir@, rel@));
    }
    out
}

} // verus!
