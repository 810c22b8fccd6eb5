//! The fetcher's computable part: the project identifier's shape and the
//! API paths the two record collections are requested from. The call
//! itself is the caller's business.

use vstd::prelude::*;

verus! {

/// A syntactically valid project identifier is `<owner>/<name>`: exactly
/// one slash, with text on both sides.
pub open spec fn project_id_valid(s: Seq<char>) -> bool {
    exists|i: int|
        0 < i < s.len() - 1 && s[i] == '/' && (forall|j: int|
            0 <= j < s.len() && j != i ==> s[j] != '/')
}

/// Checks that a project identifier is `<owner>/<name>`.
pub fn check_project_id(s: &str) -> (r: bool)
    ensures
        r == project_id_valid(s@),
{
    let n = s.unicode_len();
    let mut slash: usize = 0;
    let mut found = false;
    let mut i: usize = 0;
    while i < n
        invariant
            i <= n,
            n == s@.len(),
            found ==> slash < i && s@[slash as int] == '/',
            found ==> forall|j: int| 0 <= j < i && j != slash ==> s@[j] != '/',
            !found ==> forall|j: int| 0 <= j < i ==> s@[j] != '/',
        decreases n - i,
    {
        if s.get_char(i) == '/' {
            if found {
                proof {
                    assert forall|k: int| !(0 < k < s@.len() - 1 && s@[k] == '/' && (forall|j: int|
                        0 <= j < s@.len() && j != k ==> s@[j] != '/')) by {
                        if 0 < k < s@.len() - 1 && s@[k] == '/' {
                            if k != slash {
                                assert(s@[slash as int] == '/');
                            } else {
                                assert(s@[i as int] == '/');
                            }
                        }
                    }
                }
                return false;
            }
            slash = i;
            found = true;
        }
        i = i + 1;
    }
    let r = found && slash > 0 && slash < n - 1;
    proof {
        if r {
            assert(0 < slash < s@.len() - 1 && s@[slash as int] == '/' && (forall|j: int|
                0 <= j < s@.len() && j != slash ==> s@[j] != '/'));
        } else {
            assert forall|k: int| !(0 < k < s@.len() - 1 && s@[k] == '/' && (forall|j: int|
                0 <= j < s@.len() && j != k ==> s@[j] != '/')) by {
                if 0 < k < s@.len() - 1 && s@[k] == '/' {
                    if found {
                        if k != slash {
                            assert(s@[slash as int] == '/');
                        }
                    } else {
                        assert(s@[k] != '/');
                    }
                }
            }
        }
    }
    r
}

/// The path the issue records are requested from.
pub fn issues_path(project: &str) -> (r: String)
    ensures
        r@ == "/repos/"@ + project@ + "/issues"@,
{
    String::from_str("/repos/").concat(project).concat("/issues")
}

/// The path the issue-comment records are requested from.
pub fn comments_path(project: &str) -> (r: String)
    ensures
        r@ == "/repos/"@ + project@ + "/issues/comments"@,
{
    String::from_str("/repos/").concat(project).concat("/issues/comments")
}

} // verus!
