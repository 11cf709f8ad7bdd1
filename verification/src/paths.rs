//! Paths as text, with `/` between their parts.

use vstd::prelude::*;
use vstd::string::StringExecFns;
use crate::strings::{chars_of, trim, trimmed};

verus! {

/// `rel` adjoined to `root`: `rel` itself if it begins at the root of the
/// file system; else `root`, a `/` unless `root` is empty or ends in one,
/// and `rel`.
pub open spec fn joined(root: Seq<char>, rel: Seq<char>) -> Seq<char> {
    if rel.len() > 0 && rel[0] == '/' {
        rel
    } else if root.len() == 0 || root.last() == '/' {
        root + rel
    } else {
        root.push('/') + rel
    }
}

/// Adjoins the path `rel` to the path `root`.
pub fn join_path(root: &str, rel: &str) -> (r: String)
    ensures
        r@ == joined(root@, rel@),
{
    let rc = chars_of(rel);
    if rc.len() > 0 && rc[0] == '/' {
        return String::from_str(rel);
    }
    let c = chars_of(root);
    let mut r = String::from_str(root);
    if c.len() > 0 && c[c.len() - 1] != '/' {
        r.push('/');
    }
    r.append(rel);
    r
}

/// The root of a project: what the version control names as the top of
/// the working tree, without the white space around it, if it names
/// anything; else the current directory.
pub open spec fn root_of(git_output: Option<Seq<char>>, current_dir: Seq<char>) -> Seq<char> {
    match git_output {
        Some(out) => if trimmed(out).len() > 0 {
            trimmed(out)
        } else {
            current_dir
        },
        None => current_dir,
    }
}

/// Picks the root of a project. `git_output` is what the version control
/// printed when asked for the top of the working tree, or `None` if it
/// could not be asked or failed.
pub fn project_root(git_output: Option<&str>, current_dir: &str) -> (r: String)
    ensures
        r@ == root_of(
            match git_output {
                Some(o) => Some(o@),
                None => None,
            },
            current_dir@,
        ),
{
    match git_output {
        Some(out) => {
            let t = trim(out);
            let c = chars_of(t.as_str());
            if c.len() > 0 {
                t
            } else {
                String::from_str(current_dir)
            }
        },
        None => String::from_str(current_dir),
    }
}

} // verus!
