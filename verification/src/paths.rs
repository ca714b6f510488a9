//! Path derivations: the join rule for children, the parent/leaf split,
//! and the remote form of a filesystem path.
//!
//! Filesystem paths are absolute, slash-separated strings; the root is
//! `"/"`. The root's children are `"/" + name`; any other child is
//! `parent + "/" + name`, with no normalization of the name. The remote
//! (server-side) form of a path drops the leading slash, so the root maps
//! to the empty string.

use vstd::prelude::*;
use vstd::string::StrSliceExecFns;
use vstd::string::StringExecFns;

verus! {

/// The path of a child named `name` under the directory `parent`.
pub open spec fn join_spec(parent: Seq<char>, name: Seq<char>) -> Seq<char> {
    if parent == "/"@ {
        "/"@ + name
    } else {
        parent + "/"@ + name
    }
}

/// Index of the last `'/'` in `p`, or `-1` if none occurs.
pub open spec fn last_slash(p: Seq<char>) -> int
    decreases p.len(),
{
    if p.len() == 0 {
        -1
    } else if p[p.len() - 1] == '/' {
        p.len() - 1
    } else {
        last_slash(p.drop_last())
    }
}

/// The parent directory of `p`: everything before the last slash, the
/// root when the last slash leads `p` or no slash occurs at all.
pub open spec fn parent_spec(p: Seq<char>) -> Seq<char> {
    if last_slash(p) <= 0 {
        "/"@
    } else {
        p.take(last_slash(p))
    }
}

/// The leaf component of `p`: everything after the last slash, or all of
/// `p` when no slash occurs.
pub open spec fn leaf_spec(p: Seq<char>) -> Seq<char> {
    p.skip(last_slash(p) + 1)
}

/// The remote form of `p`: `p` without its leading character, so `"/"`
/// maps to the empty string and `"/a/b"` to `"a/b"`.
pub open spec fn remote_spec(p: Seq<char>) -> Seq<char> {
    if p.len() == 0 {
        p
    } else {
        p.skip(1)
    }
}

/// `last_slash` names the rightmost slash: a slash where it points, and
/// none anywhere to its right.
pub proof fn lemma_last_slash(p: Seq<char>)
    ensures
        -1 <= last_slash(p) < p.len(),
        last_slash(p) >= 0 ==> p[last_slash(p)] == '/',
        forall|k: int| last_slash(p) < k < p.len() ==> p[k] != '/',
    decreases p.len(),
{
    if p.len() > 0 && p[p.len() - 1] != '/' {
        lemma_last_slash(p.drop_last());
        assert forall|k: int| last_slash(p) < k < p.len() implies p[k] != '/' by {
            if k < p.len() - 1 {
                assert(p.drop_last()[k] == p[k]);
            }
        }
    }
}

/// True exactly when `p` is the root path `"/"`.
pub fn is_root(p: &str) -> (r: bool)
    ensures
        r == (p@ == "/"@),
{
    proof {
        reveal_strlit("/");
    }
    let r = p.unicode_len() == 1 && p.get_char(0) == '/';
    proof {
        if r {
            assert(p@ =~= "/"@);
        }
    }
    r
}

/// Joins `parent` and `name` by the path join rule.
pub fn join_child(parent: &str, name: &str) -> (r: String)
    ensures
        r@ == join_spec(parent@, name@),
{
    if is_root(parent) {
        "/".to_owned().concat(name)
    } else {
        parent.to_owned().concat("/").concat(name)
    }
}

/// Splits `p` into its parent directory and leaf component.
pub fn split_parent(p: &str) -> (r: (String, String))
    ensures
        r.0@ == parent_spec(p@),
        r.1@ == leaf_spec(p@),
{
    proof {
        lemma_last_slash(p@);
    }
    let n: usize = p.unicode_len();
    let mut i: usize = n;
    while i > 0
        invariant
            n == p@.len(),
            i <= n,
            forall|k: int| i <= k < n ==> p@[k] != '/',
        decreases i,
    {
        if p.get_char(i - 1) == '/' {
            proof {
                assert(last_slash(p@) == i - 1) by {
                    lemma_last_slash(p@);
                    if last_slash(p@) > i - 1 {
                        assert(p@[last_slash(p@)] != '/');
                    }
                    if last_slash(p@) < i - 1 {
                        assert(p@[i - 1] != '/');
                    }
                }
            }
            let parent: String = if i - 1 == 0 {
                "/".to_owned()
            } else {
                p.substring_char(0, i - 1).to_owned()
            };
            let leaf: String = p.substring_char(i, n).to_owned();
            proof {
                if i - 1 == 0 {
                    assert(parent@ == parent_spec(p@));
                } else {
                    assert(p@.subrange(0, i - 1) =~= p@.take(i - 1));
                }
                assert(p@.subrange(i as int, n as int) =~= p@.skip(i as int));
            }
            return (parent, leaf);
        }
        i -= 1;
    }
    proof {
        assert(last_slash(p@) == -1) by {
            lemma_last_slash(p@);
            if last_slash(p@) >= 0 {
                assert(p@[last_slash(p@)] != '/');
            }
        }
        assert(p@.skip(0) =~= p@);
    }
    ("/".to_owned(), p.to_owned())
}

/// True when `p` ends in a slash.
pub fn ends_with_slash(p: &str) -> (r: bool)
    ensures
        r == (p@.len() > 0 && p@.last() == '/'),
{
    let n: usize = p.unicode_len();
    n > 0 && p.get_char(n - 1) == '/'
}

/// Derives the remote form of `p` by dropping its leading character.
pub fn remote_of(p: &str) -> (r: String)
    ensures
        r@ == remote_spec(p@),
{
    let n: usize = p.unicode_len();
    if n == 0 {
        String::new()
    } else {
        let r = p.substring_char(1, n).to_owned();
        proof {
            assert(p@.subrange(1, n as int) =~= p@.skip(1));
        }
        r
    }
}

} // verus!
