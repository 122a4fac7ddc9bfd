//! Validation of caller-supplied path fragments before they touch the
//! filesystem: folder names must be single components, relative paths may
//! not climb out of their root.

use vstd::prelude::*;

use crate::text::chars_of;

verus! {

/// A path separator on either host convention.
pub open spec fn is_sep(c: char) -> bool {
    c == '/' || c == '\\'
}

/// Whether the text holds a `..` component: two dots bounded by the ends
/// or separators.
pub open spec fn has_parent_component(s: Seq<char>) -> bool {
    exists|i: int|
        0 <= i && i + 2 <= s.len() && (#[trigger] s[i]) == '.' && s[i + 1] == '.' && (i == 0
            || is_sep(s[i - 1])) && (i + 2 == s.len() || is_sep(s[i + 2]))
}

/// Whether a relative path is acceptable: empty is, an absolute path is
/// not, and no component may climb to the parent.
pub open spec fn spec_relative_ok(s: Seq<char>) -> bool {
    s.len() == 0 || (s[0] != '/' && !has_parent_component(s))
}

/// Refuses an absolute path or one that climbs out of its root.
pub fn validate_relative_path(relative: &str) -> (r: Result<(), String>)
    ensures
        (match r {
            Ok(()) => spec_relative_ok(relative@),
            Err(e) => !spec_relative_ok(relative@) && (relative@.len() > 0 && relative@[0] == '/'
                ==> e@ == "Path must be relative"@) && (!(relative@.len() > 0 && relative@[0]
                == '/') ==> e@ == "Path must not contain parent or root segments"@),
        }),
{
    let rc = chars_of(relative);
    if rc.len() == 0 {
        return Ok(());
    }
    if rc[0] == '/' {
        return Err("Path must be relative".to_owned());
    }
    let n = rc.len();
    let mut i: usize = 0;
    while i < n - 1
        invariant
            n == rc@.len(),
            n >= 1,
            rc@ == relative@,
            rc@[0] != '/',
            i + 2 <= n + 1,
            forall|k: int|
                0 <= k < i && k + 2 <= rc@.len() ==> !((#[trigger] rc@[k]) == '.' && rc@[k + 1]
                    == '.' && (k == 0 || is_sep(rc@[k - 1])) && (k + 2 == rc@.len() || is_sep(
                    rc@[k + 2],
                ))),
        decreases n - i,
    {
        let lead_ok = i == 0 || rc[i - 1] == '/' || rc[i - 1] == '\\';
        let tail_ok = i + 2 == n || rc[i + 2] == '/' || rc[i + 2] == '\\';
        if rc[i] == '.' && rc[i + 1] == '.' && lead_ok && tail_ok {
            proof {
                assert(has_parent_component(rc@));
            }
            return Err("Path must not contain parent or root segments".to_owned());
        }
        i = i + 1;
    }
    proof {
        assert(!has_parent_component(rc@)) by {
            if has_parent_component(rc@) {
                let k = choose|k: int|
                    0 <= k && k + 2 <= rc@.len() && (#[trigger] rc@[k]) == '.' && rc@[k + 1] == '.'
                        && (k == 0 || is_sep(rc@[k - 1])) && (k + 2 == rc@.len() || is_sep(
                        rc@[k + 2],
                    ));
            }
        }
    }
    Ok(())
}

/// Whether a folder name is acceptable: non-empty, no dot aliases, and no
/// separators.
pub open spec fn spec_folder_name_ok(s: Seq<char>) -> bool {
    &&& s.len() > 0
    &&& s != "."@
    &&& s != ".."@
    &&& forall|i: int| 0 <= i < s.len() ==> !is_sep(#[trigger] s[i])
}

/// Refuses an empty, aliased or separator-holding folder name.
pub fn validate_folder_name(name: &str) -> (r: Result<(), String>)
    ensures
        (match r {
            Ok(()) => spec_folder_name_ok(name@),
            Err(_) => !spec_folder_name_ok(name@),
        }),
{
    let nc = chars_of(name);
    if nc.len() == 0 {
        return Err("Folder name is required".to_owned());
    }
    proof {
        reveal_strlit(".");
        reveal_strlit("..");
    }
    if nc.len() == 1 && nc[0] == '.' {
        proof {
            assert(nc@ =~= "."@);
        }
        return Err("Invalid folder name".to_owned());
    }
    if nc.len() == 2 && nc[0] == '.' && nc[1] == '.' {
        proof {
            assert(nc@ =~= ".."@);
        }
        return Err("Invalid folder name".to_owned());
    }
    let mut i: usize = 0;
    while i < nc.len()
        invariant
            i <= nc@.len(),
            nc@ == name@,
            forall|k: int| 0 <= k < i ==> !is_sep(#[trigger] nc@[k]),
        decreases nc@.len() - i,
    {
        if nc[i] == '/' || nc[i] == '\\' {
            proof {
                assert(is_sep(nc@[i as int]));
            }
            return Err("Folder name must not contain path separators".to_owned());
        }
        i = i + 1;
    }
    proof {
        if nc@ == "."@ {
            assert(nc@.len() == 1 && nc@[0] == '.');
        }
        if nc@ == ".."@ {
            assert(nc@.len() == 2 && nc@[0] == '.' && nc@[1] == '.');
        }
    }
    Ok(())
}

} // verus!
