//! Repository identifiers of the form `"owner/name"`.
//!
//! A well-formed identifier contains exactly one `'/'`, separating the
//! owner from the repository name. Anything else is a caller error that
//! the rest of the pipeline never sees.

use vstd::prelude::*;
use vstd::string::StrSliceExecFns;
use vstd::string::StringExecFns;

verus! {

/// Holds when `k` is the position of the only `'/'` in `s`.
pub open spec fn is_repo_split(s: Seq<char>, k: int) -> bool {
    &&& 0 <= k < s.len()
    &&& s[k] == '/'
    &&& forall|j: int| 0 <= j < s.len() && j != k ==> s[j] != '/'
}

/// A repository identifier is well formed when it has exactly one `'/'`.
pub open spec fn valid_repo_id(s: Seq<char>) -> bool {
    exists|k: int| is_repo_split(s, k)
}

/// The path under which a repository's local mirror is expected:
/// `repos/` followed by owner and name joined by `__`. The same
/// derivation governs creating a mirror and looking one up.
pub fn local_mirror_path(owner: &str, name: &str) -> (r: String)
    ensures
        r@ == "repos/"@ + owner@ + "__"@ + name@,
{
    let mut p = String::from_str("repos/");
    p.append(owner);
    p.append("__");
    p.append(name);
    proof {
        assert(p@ =~= "repos/"@ + owner@ + "__"@ + name@);
    }
    p
}

/// Splits `"owner/name"` into owner and name.
///
/// Returns `None` exactly when the identifier is malformed, that is,
/// when it does not contain exactly one `'/'`.
pub fn split_repo_name(s: &str) -> (r: Option<(String, String)>)
    ensures
        r is Some <==> valid_repo_id(s@),
        match r {
            Some(p) => {
                &&& s@ =~= p.0@ + seq!['/'] + p.1@
                &&& !p.0@.contains('/')
                &&& !p.1@.contains('/')
            },
            None => !valid_repo_id(s@),
        },
{
    let n = s.unicode_len();
    let mut i: usize = 0;
    let mut found: Option<usize> = None;
    let mut extra: bool = false;
    while i < n
        invariant
            n == s@.len(),
            i <= n,
            match found {
                None => forall|j: int| 0 <= j < i ==> s@[j] != '/',
                Some(k) => {
                    &&& k < i
                    &&& s@[k as int] == '/'
                    &&& forall|j: int| 0 <= j < k ==> s@[j] != '/'
                    &&& !extra ==> forall|j: int| 0 <= j < i && j != k ==> s@[j] != '/'
                },
            },
            extra ==> (exists|k1: int, k2: int|
                0 <= k1 < k2 < i && s@[k1] == '/' && s@[k2] == '/'),
        decreases n - i,
    {
        let c = s.get_char(i);
        if c == '/' {
            match found {
                None => {
                    found = Some(i);
                }
                Some(k) => {
                    proof {
                        assert(0 <= k < i && s@[k as int] == '/' && s@[i as int] == '/');
                    }
                    extra = true;
                }
            }
        }
        i = i + 1;
    }
    match found {
        None => {
            proof {
                assert(!valid_repo_id(s@)) by {
                    assert(forall|k: int| 0 <= k < s@.len() ==> s@[k] != '/');
                }
            }
            None
        }
        Some(k) => {
            if extra {
                proof {
                    let (k1, k2) = choose|k1: int, k2: int|
                        0 <= k1 < k2 < n && s@[k1] == '/' && s@[k2] == '/';
                    assert forall|k0: int| !is_repo_split(s@, k0) by {
                        if 0 <= k0 < s@.len() && s@[k0] == '/' {
                            if k0 != k1 {
                                assert(!is_repo_split(s@, k0));
                            } else {
                                assert(s@[k2] == '/' && k2 != k0);
                            }
                        }
                    }
                }
                None
            } else {
                let owner = s.substring_char(0, k);
                let name = s.substring_char(k + 1, n);
                let r = Some((String::from_str(owner), String::from_str(name)));
                proof {
                    assert(is_repo_split(s@, k as int));
                    assert(s@ =~= owner@ + seq!['/'] + name@);
                    assert forall|j: int| 0 <= j < owner@.len() implies owner@[j] != '/' by {}
                    assert(!owner@.contains('/'));
                    assert forall|j: int| 0 <= j < name@.len() implies name@[j] != '/' by {}
                    assert(!name@.contains('/'));
                }
                r
            }
        }
    }
}

} // verus!
