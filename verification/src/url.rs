//! Deriving a repository name from a URL: the text after the final `/`.
//! A URL with no `/` at all, or with nothing after its final `/`, names no
//! repository and is rejected.

use vstd::prelude::*;
use vstd::string::StrSliceExecFns;
use crate::text::chars_of;

verus! {

/// `k` is the position of the final `/` of `url`.
pub open spec fn last_slash_at(url: Seq<char>, k: int) -> bool {
    &&& 0 <= k < url.len()
    &&& url[k] == '/'
    &&& forall|m: int| k < m < url.len() ==> url[m] != '/'
}

/// The repository name a URL carries: the non-empty text after its final
/// `/`, if there is one.
pub open spec fn repo_name_of(url: Seq<char>) -> Option<Seq<char>> {
    if exists|k: int| last_slash_at(url, k) {
        let k = choose|k: int| last_slash_at(url, k);
        if k + 1 < url.len() {
            Some(url.skip(k + 1))
        } else {
            None
        }
    } else {
        None
    }
}

/// At most one position is the final slash.
proof fn lemma_last_slash_unique(url: Seq<char>, k1: int, k2: int)
    requires
        last_slash_at(url, k1),
        last_slash_at(url, k2),
    ensures
        k1 == k2,
{
    if k1 < k2 {
        assert(url[k2] != '/');
    } else if k2 < k1 {
        assert(url[k1] != '/');
    }
}

/// The repository name of `url`, or `None` when the URL has no `/` or ends
/// with one.
pub fn repo_name(url: &str) -> (r: Option<String>)
    ensures
        r matches Some(nm) ==> repo_name_of(url@) == Some(nm@),
        r is None ==> repo_name_of(url@) is None,
{
    let cs = chars_of(url);
    let n = cs.len();
    let mut slash: usize = n;
    let mut i: usize = 0;
    while i < n
        invariant
            n == cs.len(),
            cs@ == url@,
            i <= n,
            slash == n || (slash < i && cs@[slash as int] == '/'),
            forall|m: int| (if slash == n { 0 } else { slash + 1 }) <= m < i ==> cs@[m] != '/',
        decreases n - i,
    {
        if cs[i] == '/' {
            slash = i;
        }
        i = i + 1;
    }
    if slash == n {
        proof {
            assert forall|k: int| !last_slash_at(url@, k) by {
                if 0 <= k < url@.len() {
                    assert(url@[k] != '/');
                }
            }
        }
        None
    } else {
        proof {
            assert(last_slash_at(url@, slash as int));
            let kk = choose|k: int| last_slash_at(url@, k);
            lemma_last_slash_unique(url@, kk, slash as int);
        }
        if slash + 1 < n {
            let seg = url.substring_char(slash + 1, n);
            proof {
                assert(url@.subrange(slash + 1 as int, n as int) =~= url@.skip(slash + 1));
            }
            Some(seg.to_owned())
        } else {
            None
        }
    }
}

} // verus!
