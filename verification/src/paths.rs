//! Cache keys. A key is a file's path relative to the watched root,
//! normalized to a single leading forward slash, so that the scanner, the
//! update pipeline and the request side all name a file the same way.
//! Paths are taken to use forward slashes as separators.

use vstd::prelude::*;

verus! {

/// Drop every leading separator from a path fragment.
pub open spec fn strip_leading_separators(s: Seq<char>) -> Seq<char>
    decreases s.len(),
{
    if s.len() > 0 && s[0] == '/' {
        strip_leading_separators(s.subrange(1, s.len() as int))
    } else {
        s
    }
}

/// The cache key of a file path under a watched root: the part of the
/// path after the root (the whole path, if the root is not a prefix of
/// it), with exactly one leading separator.
pub open spec fn key_of(root: Seq<char>, path: Seq<char>) -> Seq<char> {
    let rel = if root.len() <= path.len() && path.subrange(0, root.len() as int) == root {
        path.subrange(root.len() as int, path.len() as int)
    } else {
        path
    };
    seq!['/'] + strip_leading_separators(rel)
}

/// Whether `prefix` is a leading piece of `path`, character by character.
fn starts_with(path: &str, prefix: &str) -> (b: bool)
    ensures
        b == (prefix@.len() <= path@.len() && path@.subrange(0, prefix@.len() as int)
            == prefix@),
{
    let n = prefix.unicode_len();
    let m = path.unicode_len();
    if n > m {
        return false;
    }
    let mut i: usize = 0;
    while i < n
        invariant
            i <= n,
            n == prefix@.len(),
            m == path@.len(),
            n <= m,
            forall|j: int| 0 <= j < i ==> path@[j] == prefix@[j],
        decreases n - i,
    {
        if path.get_char(i) != prefix.get_char(i) {
            proof {
                assert(path@.subrange(0, n as int)[i as int] == path@[i as int]);
            }
            return false;
        }
        i += 1;
    }
    proof {
        assert(path@.subrange(0, n as int) =~= prefix@);
    }
    true
}

/// Compute the cache key of `path` under `root`, exactly as `key_of`
/// states it.
pub fn key_for(root: &str, path: &str) -> (k: String)
    ensures
        k@ == key_of(root@, path@),
{
    let m = path.unicode_len();
    let rel: &str = if starts_with(path, root) {
        let n = root.unicode_len();
        path.substring_char(n, m)
    } else {
        path
    };
    let rl = rel.unicode_len();
    proof {
        assert(rel@.subrange(0, rl as int) =~= rel@);
    }
    let mut i: usize = 0;
    while i < rl && rel.get_char(i) == '/'
        invariant
            i <= rl,
            rl == rel@.len(),
            strip_leading_separators(rel@) == strip_leading_separators(
                rel@.subrange(i as int, rl as int),
            ),
        decreases rl - i,
    {
        proof {
            assert(rel@.subrange(i as int, rl as int).subrange(
                1,
                rel@.subrange(i as int, rl as int).len() as int,
            ) =~= rel@.subrange(i + 1, rl as int));
        }
        i += 1;
    }
    let tail = rel.substring_char(i, rl);
    proof {
        if i < rl {
            assert(rel@.subrange(i as int, rl as int)[0] == rel@[i as int]);
        }
        assert(tail@ == strip_leading_separators(rel@));
    }
    let mut k = String::from_str("/");
    k.append(tail);
    proof {
        reveal_strlit("/");
        assert(("/")@ =~= seq!['/']);
    }
    k
}

/// The key a request path resolves to: a path that names a directory (it
/// ends in the separator) maps to the `index.html` key inside it; any
/// other path is its own key.
pub open spec fn request_key(path: Seq<char>) -> Seq<char> {
    if path.len() > 0 && path[path.len() - 1] == '/' {
        path + ("index.html")@
    } else {
        path
    }
}

/// Normalize an incoming request path to a cache key, exactly as
/// `request_key` states it.
pub fn normalize_request(path: &str) -> (k: String)
    ensures
        k@ == request_key(path@),
{
    let n = path.unicode_len();
    if n > 0 && path.get_char(n - 1) == '/' {
        let mut k = path.to_owned();
        k.append("index.html");
        k
    } else {
        path.to_owned()
    }
}

} // verus!
