//! Finding installed skills to upgrade, and the skill to reinstall.
use vstd::prelude::*;

use crate::error::ForjaError;
use crate::models::skill::{registry_lookup, Registry, Skill};
use crate::registry::diff::{ChangeType, SkillChange};
use crate::seqs::contains_string;
use crate::text::{owned, str_eq};

verus! {

/// The modified skills among `changes` that are installed, in order.
pub open spec fn upgradable_of(changes: Seq<SkillChange>, installed: Seq<Seq<char>>) -> Seq<Seq<char>>
    decreases changes.len(),
{
    if changes.len() == 0 {
        Seq::empty()
    } else {
        let c = changes.last();
        upgradable_of(changes.drop_last(), installed) + if c.change_type == ChangeType::Modified
            && installed.contains(c.skill_id@) {
            seq![c.skill_id@]
        } else {
            Seq::empty()
        }
    }
}

/// The installed skills modified since the last update: none when the
/// registry's head has not moved (`old_head == new_head`), else the
/// modified skills among `changes` (the diff between the two heads) that
/// are installed.
pub fn find_upgradable(
    old_head: &str,
    new_head: &str,
    changes: &Vec<SkillChange>,
    installed_ids: &Vec<String>,
) -> (r: Vec<String>)
    ensures
        r@.map_values(|s: String| s@) == if old_head@ == new_head@ {
            Seq::empty()
        } else {
            upgradable_of(changes@, installed_ids@.map_values(|s: String| s@))
        },
{
    let mut r: Vec<String> = Vec::new();
    if str_eq(old_head, new_head) {
        assert(r@.map_values(|s: String| s@) =~= Seq::<Seq<char>>::empty());
        return r;
    }
    let ghost inst = installed_ids@.map_values(|s: String| s@);
    let mut i: usize = 0;
    assert(r@.map_values(|s: String| s@) =~= Seq::<Seq<char>>::empty());
    while i < changes.len()
        invariant
            i <= changes@.len(),
            inst == installed_ids@.map_values(|s: String| s@),
            r@.map_values(|s: String| s@) == upgradable_of(changes@.take(i as int), inst),
        decreases changes.len() - i,
    {
        assert(changes@.take(i + 1).drop_last() =~= changes@.take(i as int));
        let c = &changes[i];
        let ghost before = r@;
        if c.change_type == ChangeType::Modified && contains_string(installed_ids, c.skill_id.as_str()) {
            r.push(owned(c.skill_id.as_str()));
            assert(r@.map_values(|s: String| s@) =~= before.map_values(|s: String| s@).push(
                c.skill_id@,
            ));
        } else {
            assert(r@.map_values(|s: String| s@) =~= before.map_values(|s: String| s@) + Seq::<
                Seq<char>,
            >::empty());
        }
        i = i + 1;
    }
    assert(changes@.take(i as int) =~= changes@);
    r
}

/// The skill to reinstall (its links are removed and created again):
/// `SkillNotFound(skill_id)` when the registry lacks it.
pub fn reinstall_skill<'a>(registry: &'a Registry, skill_id: &str) -> (r: Result<
    &'a Skill,
    ForjaError,
>)
    ensures
        match registry_lookup(registry.skills@, skill_id@) {
            Some(s) => r == Ok::<&Skill, ForjaError>(&s),
            None => r is Err && r->Err_0 is SkillNotFound && r->Err_0->SkillNotFound_0@
                == skill_id@,
        },
{
    match registry.find_by_id(skill_id) {
        Some(s) => Ok(s),
        None => Err(ForjaError::SkillNotFound(owned(skill_id))),
    }
}

} // verus!
