//! Path handling for the command builder: resolving a possibly relative
//! path against a working directory, and escaping a path for use inside a
//! filter-graph argument.

use vstd::prelude::*;
use vstd::string::*;
use crate::text::{chars_to_string, str_to_chars};

verus! {

/// Whether a path begins at the filesystem root.
pub open spec fn is_absolute(p: Seq<char>) -> bool {
    p.len() > 0 && p[0] == '/'
}

/// The absolute form of `path` resolved against the directory `cwd`: an
/// absolute path is kept, a relative one is appended to `cwd` behind a
/// separator.
pub open spec fn abs_path(path: Seq<char>, cwd: Seq<char>) -> Seq<char> {
    if is_absolute(path) {
        path
    } else if cwd.len() > 0 && cwd[cwd.len() - 1] == '/' {
        cwd + path
    } else {
        cwd + seq!['/'] + path
    }
}

/// Resolves `path` against the working directory `cwd`, as the external
/// process will see it regardless of its own working directory.
pub fn get_absolute_path(path: &str, cwd: &str) -> (r: String)
    ensures
        r@ == abs_path(path@, cwd@),
{
    let plen: usize = path.unicode_len();
    if plen > 0 && path.get_char(0) == '/' {
        return path.to_owned();
    }
    let clen: usize = cwd.unicode_len();
    let mut s = cwd.to_owned();
    if !(clen > 0 && cwd.get_char(clen - 1) == '/') {
        s.append("/");
        proof {
            reveal_strlit("/");
            assert(s@ =~= cwd@ + seq!['/']);
        }
    }
    s.append(path);
    s
}

/// The characters standing for one path character inside a filter-graph
/// argument: a backslash is quadrupled and a colon gains a doubled
/// backslash; all else passes through.
pub open spec fn escape_char(c: char) -> Seq<char> {
    if c == '\\' {
        seq!['\\', '\\', '\\', '\\']
    } else if c == ':' {
        seq!['\\', '\\', ':']
    } else {
        seq![c]
    }
}

/// The filter-graph escaping of a whole path.
pub open spec fn escaped(s: Seq<char>) -> Seq<char>
    decreases s.len(),
{
    if s.len() == 0 {
        seq![]
    } else {
        escaped(s.drop_last()) + escape_char(s.last())
    }
}

/// Escapes a path for a filter-graph argument.
pub fn escape_filter_path(s: &str) -> (r: String)
    ensures
        r@ == escaped(s@),
{
    let v = str_to_chars(s);
    let n: usize = v.len();
    let mut out: Vec<char> = Vec::new();
    for i in 0..n
        invariant
            n == v@.len(),
            v@ == s@,
            out@ == escaped(s@.take(i as int)),
    {
        let c = v[i];
        if c == '\\' {
            out.push('\\');
            out.push('\\');
            out.push('\\');
            out.push('\\');
        } else if c == ':' {
            out.push('\\');
            out.push('\\');
            out.push(':');
        } else {
            out.push(c);
        }
        proof {
            assert(s@.take(i + 1).drop_last() == s@.take(i as int));
            assert(s@.take(i + 1).last() == s@[i as int]);
            assert(out@ =~= escaped(s@.take(i as int)) + escape_char(s@[i as int]));
        }
    }
    assert(s@.take(n as int) == s@);
    chars_to_string(&out)
}

} // verus!
