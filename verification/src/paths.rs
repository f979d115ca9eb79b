//! Paths of forja's files, joined as `Path::join` does on Unix.
use vstd::prelude::*;

use crate::text::{ends_with, owned, push_str, starts_with};

verus! {

/// `name` joined onto `dir`: an absolute `name` replaces `dir`; otherwise a
/// `/` goes between them unless `dir` is empty or already ends with one.
pub open spec fn joined(dir: Seq<char>, name: Seq<char>) -> Seq<char> {
    if starts_with(name, "/"@) {
        name
    } else if dir.len() == 0 || ends_with(dir, "/"@) {
        dir + name
    } else {
        dir + "/"@ + name
    }
}

/// `name` joined onto `dir` (see `joined`).
pub fn join_path(dir: &str, name: &str) -> (r: String)
    ensures
        r@ == joined(dir@, name@),
{
    let nc = crate::text::chars_of(name);
    let dc = crate::text::chars_of(dir);
    let slash = crate::text::chars_of("/");
    if crate::text::matches_at(&nc, &slash, 0) {
        return owned(name);
    }
    proof {
        reveal_strlit("/");
    }
    let mut r = owned(dir);
    if dc.len() > 0 && dc[dc.len() - 1] != '/' {
        assert(!ends_with(dir@, "/"@)) by {
            assert(dir@.subrange(dir@.len() - 1, dir@.len() as int)[0] == dc@[dc@.len() - 1]);
        }
        push_str(&mut r, "/");
    } else if dc.len() > 0 {
        assert(dir@.subrange(dir@.len() - 1, dir@.len() as int) =~= "/"@);
    }
    push_str(&mut r, name);
    r
}

/// The analytics file of a forja root: `<root>/analytics.json`.
pub fn analytics_path(forja_root: &str) -> (r: String)
    ensures
        r@ == joined(forja_root@, "analytics.json"@),
{
    join_path(forja_root, "analytics.json")
}

/// The checkpoint file of a plan: `<plans_dir>/<plan_id>.checkpoint.json`.
pub fn checkpoint_path(plans_dir: &str, plan_id: &str) -> (r: String)
    ensures
        r@ == joined(plans_dir@, plan_id@ + ".checkpoint.json"@),
{
    let name = crate::text::concat2(plan_id, ".checkpoint.json");
    join_path(plans_dir, name.as_str())
}

/// The workspace directory of a plan: `<plans_dir>/<plan_id>-workspace`.
pub fn workspace_dir(plans_dir: &str, plan_id: &str) -> (r: String)
    ensures
        r@ == joined(plans_dir@, plan_id@ + "-workspace"@),
{
    let name = crate::text::concat2(plan_id, "-workspace");
    join_path(plans_dir, name.as_str())
}

} // verus!
