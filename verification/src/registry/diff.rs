//! Which skills changed between two revisions of the registry.
use vstd::prelude::*;

use crate::error::ForjaError;
use crate::json::{json_error, json_pointer_str, json_str_at};
use crate::sorting::{char_codes, is_stable_sort, stable_sort_by_key, str_sort_key, SortKey};
use crate::text::{chars_of, chars_eq, is_whitespace, is_ws, owned, push_str, raw_lines, raw_lines_of, split_chars, split_on, string_from_chars, views};

verus! {

/// How a skill changed.
#[derive(Debug, Clone, Copy, PartialEq, Eq, Structural)]
pub enum ChangeType {
    Added,
    Modified,
    Removed,
}

/// A skill that changed between two revisions.
#[derive(Debug, Clone)]
pub struct SkillChange {
    pub skill_id: String,
    pub change_type: ChangeType,
}

/// The pre-update HEAD recorded in `last_update.json` (its `head_before`).
/// `content` is the file's text, `None` when the file does not exist.
pub fn load_previous_head(content: Option<&str>) -> (r: Result<String, ForjaError>)
    ensures
        match content {
            None => r is Err && r->Err_0 is Git && r->Err_0->Git_0@
                == "No previous update found. Run 'forja update' first."@,
            Some(text) => match crate::json::json_parse_error(text@) {
                Some(m) => r is Err && r->Err_0 is Json && r->Err_0->Json_0@ == m,
                None => match json_pointer_str(text@, "/head_before"@) {
                    Some(h) => r is Ok && r->Ok_0@ == h,
                    None => r is Err && r->Err_0 is Git && r->Err_0->Git_0@
                        == "Invalid last_update.json format"@,
                },
            },
        },
{
    let text = match content {
        None => {
            return Err(
                ForjaError::Git(owned("No previous update found. Run 'forja update' first.")),
            );
        },
        Some(t) => t,
    };
    if let Some(m) = json_error(text) {
        return Err(ForjaError::Json(m));
    }
    match json_str_at(text, "/head_before") {
        Some(h) => Ok(h),
        None => Err(ForjaError::Git(owned("Invalid last_update.json format"))),
    }
}

/// The whitespace-separated words of `s` (`str::split_whitespace`).
pub open spec fn words(s: Seq<char>) -> Seq<Seq<char>>
    decreases s.len(),
{
    if s.len() == 0 {
        Seq::empty()
    } else {
        let w = words(s.drop_last());
        if is_ws(s.last()) {
            w
        } else if s.len() > 1 && !is_ws(s.drop_last().last()) {
            w.update(w.len() - 1, w.last().push(s.last()))
        } else {
            w.push(seq![s.last()])
        }
    }
}

proof fn lemma_words_nonempty(s: Seq<char>)
    requires
        s.len() > 0,
        !is_ws(s.last()),
    ensures
        words(s).len() > 0,
    decreases s.len(),
{
    if s.len() > 1 && !is_ws(s.drop_last().last()) {
        lemma_words_nonempty(s.drop_last());
    }
}

fn words_of(s: &Vec<char>) -> (r: Vec<Vec<char>>)
    ensures
        views(r@) == words(s@),
{
    let mut r: Vec<Vec<char>> = Vec::new();
    let mut i: usize = 0;
    while i < s.len()
        invariant
            i <= s.len(),
            views(r@) == words(s@.take(i as int)),
        decreases s.len() - i,
    {
        let c = s[i];
        let ghost pre = s@.take(i as int);
        assert(s@.take(i + 1).drop_last() =~= pre);
        assert(s@.take(i + 1).last() == c);
        let ghost before = views(r@);
        if is_whitespace(c) {
        } else if i > 0 && !is_whitespace(s[i - 1]) {
            assert(pre.last() == s@[i - 1]);
            proof {
                lemma_words_nonempty(pre);
            }
            let k = r.len() - 1;
            let mut w = r.remove(k);
            w.push(c);
            r.push(w);
            assert(views(r@) =~= before.update(before.len() - 1, before.last().push(c)));
        } else {
            let mut w: Vec<char> = Vec::new();
            w.push(c);
            r.push(w);
            assert(views(r@) =~= before.push(seq![c]));
        }
        i = i + 1;
    }
    assert(s@.take(i as int) =~= s@);
    r
}

/// The change a line of `git diff --name-status` records, when its path
/// lies in a skill: the id `<phase>/<tech>/<name>` of
/// `skills/<phase>/<tech>/<name>/...`, and `A` as added, `D` as removed,
/// anything else as modified.
pub open spec fn line_change(line: Seq<char>) -> Option<(Seq<char>, ChangeType)> {
    let parts = words(line);
    if parts.len() < 2 {
        None
    } else {
        let segs = split_on(parts[1], '/');
        if segs.len() < 4 || segs[0] != "skills"@ {
            None
        } else {
            Some(
                (
                    segs[1] + "/"@ + segs[2] + "/"@ + segs[3],
                    if parts[0] == "A"@ {
                        ChangeType::Added
                    } else if parts[0] == "D"@ {
                        ChangeType::Removed
                    } else {
                        ChangeType::Modified
                    },
                ),
            )
        }
    }
}

/// A change as plain values.
pub open spec fn change_view(c: SkillChange) -> (Seq<char>, ChangeType) {
    (c.skill_id@, c.change_type)
}

/// The plain values of a list of changes.
pub open spec fn changes_view(v: Seq<SkillChange>) -> Seq<(Seq<char>, ChangeType)> {
    v.map_values(|c: SkillChange| change_view(c))
}

/// The position of skill `id` in `m`, if any.
pub open spec fn change_pos(m: Seq<(Seq<char>, ChangeType)>, id: Seq<char>) -> Option<int>
    decreases m.len(),
{
    if m.len() == 0 {
        None
    } else {
        match change_pos(m.drop_last(), id) {
            Some(k) => Some(k),
            None => if m.last().0 == id {
                Some(m.len() - 1)
            } else {
                None
            },
        }
    }
}

/// The changes after recording `c`: a skill's first change is kept, except
/// that an addition replaces any other kind.
pub open spec fn record_change(m: Seq<(Seq<char>, ChangeType)>, c: (Seq<char>, ChangeType)) -> Seq<
    (Seq<char>, ChangeType),
> {
    match change_pos(m, c.0) {
        None => m.push(c),
        Some(k) => if c.1 == ChangeType::Added && m[k].1 != ChangeType::Added {
            m.update(k, (m[k].0, ChangeType::Added))
        } else {
            m
        },
    }
}

/// The changes of the lines, one per skill, in order of first mention.
pub open spec fn changes_of(lines: Seq<Seq<char>>) -> Seq<(Seq<char>, ChangeType)>
    decreases lines.len(),
{
    if lines.len() == 0 {
        Seq::empty()
    } else {
        let m = changes_of(lines.drop_last());
        match line_change(lines.last()) {
            Some(c) => record_change(m, c),
            None => m,
        }
    }
}

/// The skill a diff line reports as added, if it does.
pub open spec fn added_skill(line: Seq<char>) -> Option<Seq<char>> {
    match line_change(line) {
        Some((id, kind)) => if kind == ChangeType::Added {
            Some(id)
        } else {
            None
        },
        None => None,
    }
}

/// The diff reports each skill once, and as added whenever one of its
/// lines reports an addition.
pub proof fn lemma_changes_once(lines: Seq<Seq<char>>)
    ensures
        forall|i: int, j: int|
            0 <= i < changes_of(lines).len() && 0 <= j < changes_of(lines).len() && i != j
                ==> #[trigger] changes_of(lines)[i].0 != #[trigger] changes_of(lines)[j].0,
        forall|i: int|
            0 <= i < lines.len() && #[trigger] added_skill(lines[i]) is Some ==> exists|k: int|
                0 <= k < changes_of(lines).len() && #[trigger] changes_of(lines)[k] == (
                    added_skill(lines[i])->0,
                    ChangeType::Added,
                ),
    decreases lines.len(),
{
    if lines.len() > 0 {
        let pre = lines.drop_last();
        lemma_changes_once(pre);
        let m = changes_of(pre);
        let r = changes_of(lines);
        match line_change(lines.last()) {
            None => {
                assert(r == m);
                assert forall|i: int|
                    0 <= i < lines.len() && #[trigger] added_skill(lines[i]) is Some implies exists|k: int|
                    0 <= k < r.len() && #[trigger] r[k] == (added_skill(lines[i])->0, ChangeType::Added) by {
                    assert(i < pre.len());
                    assert(lines[i] == pre[i]);
                }
            },
            Some(c) => {
                lemma_change_pos(m, c.0);
                assert forall|i: int, j: int|
                    0 <= i < r.len() && 0 <= j < r.len() && i != j implies #[trigger] r[i].0
                    != #[trigger] r[j].0 by {
                    match change_pos(m, c.0) {
                        None => {
                            if i < m.len() && j < m.len() {
                                assert(r[i] == m[i] && r[j] == m[j]);
                            } else if i < m.len() {
                                assert(r[i] == m[i]);
                            } else {
                                assert(r[j] == m[j]);
                            }
                        },
                        Some(k) => {
                            assert(r[i].0 == m[i].0);
                            assert(r[j].0 == m[j].0);
                        },
                    }
                }
                assert forall|i: int|
                    0 <= i < lines.len() && #[trigger] added_skill(lines[i]) is Some implies exists|k: int|
                    0 <= k < r.len() && #[trigger] r[k] == (added_skill(lines[i])->0, ChangeType::Added) by {
                    let id = added_skill(lines[i])->0;
                    if i < pre.len() {
                        assert(lines[i] == pre[i]);
                        let k = choose|k: int| 0 <= k < m.len() && #[trigger] m[k] == (id, ChangeType::Added);
                        assert(r[k] == m[k]);
                    } else {
                        assert(lines[i] == lines.last());
                        match change_pos(m, c.0) {
                            None => {
                                assert(r[m.len() as int] == c);
                            },
                            Some(p) => {
                                assert(r[p] == (c.0, ChangeType::Added));
                            },
                        }
                    }
                }
            },
        }
    }
}

proof fn lemma_change_pos(m: Seq<(Seq<char>, ChangeType)>, id: Seq<char>)
    ensures
        match change_pos(m, id) {
            Some(k) => 0 <= k < m.len() && m[k].0 == id && forall|j: int|
                0 <= j < k ==> #[trigger] m[j].0 != id,
            None => forall|j: int| 0 <= j < m.len() ==> #[trigger] m[j].0 != id,
        },
    decreases m.len(),
{
    if m.len() > 0 {
        lemma_change_pos(m.drop_last(), id);
        assert(m.last() == m[m.len() - 1]);
        assert forall|j: int| 0 <= j < m.len() - 1 implies m[j] == m.drop_last()[j] by {}
    }
}

impl SortKey for SkillChange {
    open spec fn key(&self) -> Seq<int> {
        char_codes(self.skill_id@)
    }

    fn key_exec(&self) -> (k: Vec<u32>) {
        str_sort_key(self.skill_id.as_str())
    }
}

fn record(changes: &mut Vec<SkillChange>, id: String, change_type: ChangeType)
    ensures
        changes_view(final(changes)@) == record_change(
            changes_view(old(changes)@),
            (id@, change_type),
        ),
{
    let ghost m = changes_view(changes@);
    proof {
        lemma_change_pos(m, id@);
    }
    let mut k: usize = 0;
    while k < changes.len()
        invariant
            k <= changes@.len(),
            m == changes_view(changes@),
            forall|j: int| 0 <= j < k ==> #[trigger] changes@[j].skill_id@ != id@,
        ensures
            k <= changes@.len(),
            forall|j: int| 0 <= j < k ==> #[trigger] changes@[j].skill_id@ != id@,
            k < changes@.len() ==> changes@[k as int].skill_id@ == id@,
        decreases changes.len() - k,
    {
        if crate::text::str_eq(changes[k].skill_id.as_str(), id.as_str()) {
            break;
        }
        k = k + 1;
    }
    if k == changes.len() {
        assert(change_pos(m, id@) is None) by {
            if change_pos(m, id@) is Some {
                let kk = change_pos(m, id@)->0;
                assert(changes@[kk].skill_id@ == m[kk].0);
            }
        }
        let ghost before = changes@;
        let c = SkillChange { skill_id: id, change_type };
        changes.push(c);
        assert(changes_view(changes@) =~= changes_view(before).push(change_view(c)));
    } else {
        assert(change_pos(m, id@) == Some(k as int)) by {
            match change_pos(m, id@) {
                Some(kk) => {
                    if kk < k {
                        assert(changes@[kk].skill_id@ == m[kk].0);
                    }
                    if kk > k {
                        assert(m[k as int].0 == changes@[k as int].skill_id@);
                    }
                },
                None => {
                    assert(m[k as int].0 == changes@[k as int].skill_id@);
                },
            }
        }
        if change_type == ChangeType::Added && changes[k].change_type != ChangeType::Added {
            let ghost before = changes@;
            let c = SkillChange { skill_id: id, change_type: ChangeType::Added };
            changes.set(k, c);
            assert(changes_view(changes@) =~= changes_view(before).update(
                k as int,
                (m[k as int].0, ChangeType::Added),
            ));
        }
    }
}

/// The change of one line, when it records one.
fn change_of_line(line: &Vec<char>) -> (r: Option<(String, ChangeType)>)
    ensures
        match r {
            Some((id, ct)) => line_change(line@) == Some((id@, ct)),
            None => line_change(line@) is None,
        },
{
    let parts = words_of(line);
    if parts.len() < 2 {
        return None;
    }
    let segs = split_chars(&parts[1], '/');
    if segs.len() < 4 || !chars_eq(&segs[0], &chars_of("skills")) {
        return None;
    }
    let mut id = string_from_chars(segs[1].as_slice());
    push_str(&mut id, "/");
    push_str(&mut id, string_from_chars(segs[2].as_slice()).as_str());
    push_str(&mut id, "/");
    push_str(&mut id, string_from_chars(segs[3].as_slice()).as_str());
    let ct = if chars_eq(&parts[0], &chars_of("A")) {
        ChangeType::Added
    } else if chars_eq(&parts[0], &chars_of("D")) {
        ChangeType::Removed
    } else {
        ChangeType::Modified
    };
    Some((id, ct))
}

/// The skills changed according to `git diff --name-status` output (only
/// paths under `skills/<phase>/<tech>/<name>/` count), one change per skill,
/// sorted by skill id. A skill's first change is kept, except that an
/// addition replaces any other kind.
pub fn parse_diff_output(output: &str) -> (r: Result<Vec<SkillChange>, ForjaError>)
    ensures
        r is Ok,
        exists|m: Seq<SkillChange>|
            changes_view(m) == changes_of(raw_lines(output@)) && is_stable_sort(m, r->Ok_0@),
{
    let cs = chars_of(output);
    let lines = raw_lines_of(&cs);
    let ghost ls = views(lines@);
    let mut changes: Vec<SkillChange> = Vec::new();
    assert(changes_view(changes@) =~= Seq::<(Seq<char>, ChangeType)>::empty());
    let mut i: usize = 0;
    while i < lines.len()
        invariant
            i <= lines.len(),
            ls == views(lines@),
            ls == raw_lines(output@),
            changes_view(changes@) == changes_of(ls.take(i as int)),
        decreases lines.len() - i,
    {
        assert(ls.take(i + 1).drop_last() =~= ls.take(i as int));
        assert(ls.take(i + 1).last() == lines@[i as int]@);
        match change_of_line(&lines[i]) {
            Some((id, ct)) => {
                record(&mut changes, id, ct);
            },
            None => {},
        }
        i = i + 1;
    }
    assert(ls.take(i as int) =~= ls);
    let ghost m = changes@;
    let sorted = stable_sort_by_key(changes);
    assert(is_stable_sort(m, sorted@));
    Ok(sorted)
}

} // verus!
