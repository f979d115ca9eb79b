//! Installing the agent links of skills that are missing.
use vstd::prelude::*;

use crate::models::skill::{registry_lookup, Registry, Skill};
use crate::seqs::{contains_string, strs};
use crate::text::owned;

verus! {

/// What installing one skill came to.
#[derive(Debug, Clone)]
pub enum InstallOutcome {
    Installed,
    /// The install failed with this message.
    Failed(String),
    /// The registry has no such skill.
    NotFound,
}

/// Result of an auto-install: the skills installed, those whose install
/// failed (with the error message), and those the registry lacks.
#[derive(Debug, Clone)]
pub struct AutoInstallResult {
    pub installed: Vec<String>,
    pub failed: Vec<(String, String)>,
    pub not_found: Vec<String>,
}

/// The ids among `skill_ids` that are not installed, in order.
pub open spec fn missing_of(skill_ids: Seq<Seq<char>>, installed: Seq<Seq<char>>) -> Seq<Seq<char>>
    decreases skill_ids.len(),
{
    if skill_ids.len() == 0 {
        Seq::empty()
    } else {
        missing_of(skill_ids.drop_last(), installed) + if installed.contains(skill_ids.last()) {
            Seq::empty()
        } else {
            seq![skill_ids.last()]
        }
    }
}

/// The skills among `skill_ids` that are not installed yet, in order.
pub fn missing_ids(skill_ids: &Vec<&str>, installed_ids: &Vec<String>) -> (r: Vec<String>)
    ensures
        r@.map_values(|s: String| s@) == missing_of(
            strs(skill_ids@),
            installed_ids@.map_values(|s: String| s@),
        ),
{
    let ghost ids = strs(skill_ids@);
    let ghost inst = installed_ids@.map_values(|s: String| s@);
    let mut r: Vec<String> = Vec::new();
    let mut i: usize = 0;
    while i < skill_ids.len()
        invariant
            i <= skill_ids@.len(),
            ids == strs(skill_ids@),
            inst == installed_ids@.map_values(|s: String| s@),
            r@.map_values(|s: String| s@) == missing_of(ids.take(i as int), inst),
        decreases skill_ids.len() - i,
    {
        assert(ids.take(i + 1).drop_last() =~= ids.take(i as int));
        assert(ids.take(i + 1).last() == skill_ids@[i as int]@);
        let ghost before = r@;
        if !contains_string(installed_ids, skill_ids[i]) {
            r.push(owned(skill_ids[i]));
            assert(r@.map_values(|s: String| s@) =~= before.map_values(|s: String| s@).push(
                skill_ids@[i as int]@,
            ));
        } else {
            assert(r@.map_values(|s: String| s@) =~= before.map_values(|s: String| s@) + Seq::<
                Seq<char>,
            >::empty());
        }
        i = i + 1;
    }
    assert(ids.take(i as int) =~= ids);
    r
}

/// The ids whose outcome is `Installed`, in order.
pub open spec fn installed_of(ids: Seq<Seq<char>>, outcomes: Seq<InstallOutcome>) -> Seq<Seq<char>>
    decreases ids.len(),
{
    if ids.len() == 0 || outcomes.len() == 0 {
        Seq::empty()
    } else {
        installed_of(ids.drop_last(), outcomes.drop_last()) + match outcomes.last() {
            InstallOutcome::Installed => seq![ids.last()],
            _ => Seq::empty(),
        }
    }
}

/// The ids whose install failed, with the message, in order.
pub open spec fn failed_of(ids: Seq<Seq<char>>, outcomes: Seq<InstallOutcome>) -> Seq<
    (Seq<char>, Seq<char>),
>
    decreases ids.len(),
{
    if ids.len() == 0 || outcomes.len() == 0 {
        Seq::empty()
    } else {
        failed_of(ids.drop_last(), outcomes.drop_last()) + match outcomes.last() {
            InstallOutcome::Failed(m) => seq![(ids.last(), m@)],
            _ => Seq::empty(),
        }
    }
}

/// The ids the registry lacks, in order.
pub open spec fn not_found_of(ids: Seq<Seq<char>>, outcomes: Seq<InstallOutcome>) -> Seq<Seq<char>>
    decreases ids.len(),
{
    if ids.len() == 0 || outcomes.len() == 0 {
        Seq::empty()
    } else {
        not_found_of(ids.drop_last(), outcomes.drop_last()) + match outcomes.last() {
            InstallOutcome::NotFound => seq![ids.last()],
            _ => Seq::empty(),
        }
    }
}

/// What is missing is among the requested ids and is not installed.
pub proof fn lemma_missing_not_installed(skill_ids: Seq<Seq<char>>, installed: Seq<Seq<char>>, x: Seq<char>)
    requires
        missing_of(skill_ids, installed).contains(x),
    ensures
        skill_ids.contains(x),
        !installed.contains(x),
    decreases skill_ids.len(),
{
    let pre = skill_ids.drop_last();
    let m = missing_of(pre, installed);
    let k = choose|k: int| 0 <= k < missing_of(skill_ids, installed).len() && missing_of(skill_ids, installed)[k] == x;
    if k < m.len() {
        assert(m[k] == x);
        lemma_missing_not_installed(pre, installed, x);
        let j = choose|j: int| 0 <= j < pre.len() && pre[j] == x;
        assert(skill_ids[j] == x);
    } else {
        assert(x == skill_ids.last());
        assert(skill_ids[skill_ids.len() - 1] == x);
    }
}

/// Every skill that was to be installed is reported exactly once: as
/// installed, as failed or as not found.
pub proof fn lemma_outcomes_partition(ids: Seq<Seq<char>>, outcomes: Seq<InstallOutcome>)
    requires
        ids.len() == outcomes.len(),
    ensures
        installed_of(ids, outcomes).len() + failed_of(ids, outcomes).len() + not_found_of(
            ids,
            outcomes,
        ).len() == ids.len(),
    decreases ids.len(),
{
    if ids.len() > 0 {
        lemma_outcomes_partition(ids.drop_last(), outcomes.drop_last());
    }
}

/// The skills the registry has for `ids`, in order (the first skill with
/// each id; ids it lacks are left out).
pub open spec fn found_skills(skills: Seq<Skill>, ids: Seq<Seq<char>>) -> Seq<Skill>
    decreases ids.len(),
{
    if ids.len() == 0 {
        Seq::empty()
    } else {
        found_skills(skills, ids.drop_last()) + match registry_lookup(skills, ids.last()) {
            Some(sk) => seq![sk],
            None => Seq::empty(),
        }
    }
}

/// The ids the registry lacks, in order.
pub open spec fn absent_ids(skills: Seq<Skill>, ids: Seq<Seq<char>>) -> Seq<Seq<char>>
    decreases ids.len(),
{
    if ids.len() == 0 {
        Seq::empty()
    } else {
        absent_ids(skills, ids.drop_last()) + match registry_lookup(skills, ids.last()) {
            Some(_) => Seq::empty(),
            None => seq![ids.last()],
        }
    }
}

/// What each of `ids` comes to: `NotFound` when the registry lacks it,
/// otherwise what installing its skill gave. `results` holds one install
/// result for each skill the registry has, in order.
pub open spec fn outcomes_of(
    skills: Seq<Skill>,
    ids: Seq<Seq<char>>,
    results: Seq<Result<(), String>>,
) -> Seq<InstallOutcome>
    decreases ids.len(),
{
    if ids.len() == 0 {
        Seq::empty()
    } else {
        let pre = ids.drop_last();
        outcomes_of(skills, pre, results).push(
            match registry_lookup(skills, ids.last()) {
                None => InstallOutcome::NotFound,
                Some(_) => match results[found_skills(skills, pre).len() as int] {
                    Ok(_) => InstallOutcome::Installed,
                    Err(m) => InstallOutcome::Failed(m),
                },
            },
        )
    }
}

proof fn lemma_outcomes_len(skills: Seq<Skill>, ids: Seq<Seq<char>>, results: Seq<Result<(), String>>)
    ensures
        outcomes_of(skills, ids, results).len() == ids.len(),
    decreases ids.len(),
{
    if ids.len() > 0 {
        lemma_outcomes_len(skills, ids.drop_last(), results);
    }
}

proof fn lemma_found_prefix(skills: Seq<Skill>, ids: Seq<Seq<char>>, k: int)
    requires
        0 <= k <= ids.len(),
    ensures
        found_skills(skills, ids.take(k)).len() <= found_skills(skills, ids).len(),
    decreases ids.len(),
{
    if k == ids.len() {
        assert(ids.take(k) =~= ids);
    } else {
        lemma_found_prefix(skills, ids.drop_last(), k);
        assert(ids.drop_last().take(k) =~= ids.take(k));
    }
}

/// A skill is reported as not found exactly when the registry has no skill
/// with its id.
pub proof fn lemma_not_found_is_absent(
    skills: Seq<Skill>,
    ids: Seq<Seq<char>>,
    results: Seq<Result<(), String>>,
)
    ensures
        not_found_of(ids, outcomes_of(skills, ids, results)) == absent_ids(skills, ids),
    decreases ids.len(),
{
    if ids.len() > 0 {
        let pre = ids.drop_last();
        lemma_not_found_is_absent(skills, pre, results);
        lemma_outcomes_len(skills, pre, results);
        let outs = outcomes_of(skills, ids, results);
        assert(outs.drop_last() =~= outcomes_of(skills, pre, results));
    }
}

/// The skills to install for the `missing` ids: those the registry has, in
/// order (the first skill with each id).
pub fn skills_to_install<'a>(registry: &'a Registry, missing: &Vec<String>) -> (r: Vec<&'a Skill>)
    ensures
        r@.map_values(|s: &Skill| *s) == found_skills(
            registry.skills@,
            missing@.map_values(|s: String| s@),
        ),
{
    let ghost ids = missing@.map_values(|s: String| s@);
    let mut r: Vec<&Skill> = Vec::new();
    let mut i: usize = 0;
    while i < missing.len()
        invariant
            i <= missing@.len(),
            ids == missing@.map_values(|s: String| s@),
            r@.map_values(|s: &Skill| *s) == found_skills(registry.skills@, ids.take(i as int)),
        decreases missing.len() - i,
    {
        assert(ids.take(i + 1).drop_last() =~= ids.take(i as int));
        assert(ids.take(i + 1).last() == missing@[i as int]@);
        let ghost before = r@;
        match registry.find_by_id(missing[i].as_str()) {
            Some(sk) => {
                r.push(sk);
                assert(r@.map_values(|s: &Skill| *s) =~= before.map_values(|s: &Skill| *s).push(*sk));
            },
            None => {
                assert(r@.map_values(|s: &Skill| *s) =~= before.map_values(|s: &Skill| *s)
                    + Seq::<Skill>::empty());
            },
        }
        i = i + 1;
    }
    assert(ids.take(i as int) =~= ids);
    r
}

/// Report on installing the `missing` skills: each id the registry lacks is
/// not found; each other one is installed or failed as its install result
/// says (`results` holds one result for each skill the registry has, in the
/// order of `skills_to_install`). Also gives the installed ids after it:
/// those installed before, then the newly installed ones.
pub fn auto_install_missing(
    registry: &Registry,
    missing: &Vec<String>,
    results: &Vec<Result<(), String>>,
    installed_ids: Vec<String>,
) -> (r: (AutoInstallResult, Vec<String>))
    requires
        results@.len() == found_skills(registry.skills@, missing@.map_values(|s: String| s@)).len(),
    ensures
        ({
            let ids = missing@.map_values(|s: String| s@);
            let outs = outcomes_of(registry.skills@, ids, results@);
            &&& r.0.installed@.map_values(|s: String| s@) == installed_of(ids, outs)
            &&& r.0.failed@.map_values(|p: (String, String)| (p.0@, p.1@)) == failed_of(ids, outs)
            &&& r.0.not_found@.map_values(|s: String| s@) == absent_ids(registry.skills@, ids)
            &&& r.1@.map_values(|s: String| s@) == installed_ids@.map_values(|s: String| s@)
                + installed_of(ids, outs)
            &&& r.0.installed@.len() + r.0.failed@.len() + r.0.not_found@.len() == missing@.len()
        }),
{
    let ghost ids = missing@.map_values(|s: String| s@);
    let ghost skills = registry.skills@;
    let ghost res = results@;
    let ghost inst0 = installed_ids@.map_values(|s: String| s@);
    let mut current = installed_ids;
    let mut installed: Vec<String> = Vec::new();
    let mut failed: Vec<(String, String)> = Vec::new();
    let mut not_found: Vec<String> = Vec::new();
    let mut i: usize = 0;
    let mut j: usize = 0;
    while i < missing.len()
        invariant
            i <= missing@.len(),
            ids == missing@.map_values(|s: String| s@),
            skills == registry.skills@,
            res == results@,
            res.len() == found_skills(skills, ids).len(),
            j == found_skills(skills, ids.take(i as int)).len(),
            installed@.map_values(|s: String| s@) == installed_of(
                ids.take(i as int),
                outcomes_of(skills, ids.take(i as int), res),
            ),
            failed@.map_values(|p: (String, String)| (p.0@, p.1@)) == failed_of(
                ids.take(i as int),
                outcomes_of(skills, ids.take(i as int), res),
            ),
            not_found@.map_values(|s: String| s@) == absent_ids(skills, ids.take(i as int)),
            current@.map_values(|s: String| s@) == inst0 + installed_of(
                ids.take(i as int),
                outcomes_of(skills, ids.take(i as int), res),
            ),
        decreases missing.len() - i,
    {
        let ghost pre = ids.take(i as int);
        let ghost nxt = ids.take(i + 1);
        assert(nxt.drop_last() =~= pre);
        assert(nxt.last() == missing@[i as int]@);
        proof {
            lemma_outcomes_len(skills, pre, res);
            lemma_found_prefix(skills, ids, i + 1);
        }
        let ghost outs0 = outcomes_of(skills, pre, res);
        let ghost outs1 = outcomes_of(skills, nxt, res);
        assert(outs1.drop_last() =~= outs0);
        let id = missing[i].as_str();
        let ghost i0 = installed@;
        let ghost f0 = failed@;
        let ghost n0 = not_found@;
        let ghost c0 = current@;
        match registry.find_by_id(id) {
            None => {
                not_found.push(owned(id));
                assert(not_found@.map_values(|s: String| s@) =~= n0.map_values(|s: String| s@).push(
                    id@,
                ));
                assert(installed@.map_values(|s: String| s@) =~= i0.map_values(|s: String| s@)
                    + Seq::<Seq<char>>::empty());
                assert(failed@.map_values(|p: (String, String)| (p.0@, p.1@)) =~= f0.map_values(
                    |p: (String, String)| (p.0@, p.1@),
                ) + Seq::<(Seq<char>, Seq<char>)>::empty());
                assert(current@.map_values(|s: String| s@) =~= c0.map_values(|s: String| s@)
                    + Seq::<Seq<char>>::empty());
            },
            Some(_) => {
                assert(not_found@.map_values(|s: String| s@) =~= n0.map_values(|s: String| s@)
                    + Seq::<Seq<char>>::empty());
                assert(found_skills(skills, nxt).len() == j + 1);
                assert(j < results.len());
                match &results[j] {
                    Ok(_) => {
                        current.push(owned(id));
                        installed.push(owned(id));
                        assert(installed@.map_values(|s: String| s@) =~= i0.map_values(
                            |s: String| s@,
                        ).push(id@));
                        assert(current@.map_values(|s: String| s@) =~= c0.map_values(
                            |s: String| s@,
                        ).push(id@));
                        assert(failed@.map_values(|p: (String, String)| (p.0@, p.1@)) =~= f0.map_values(
                            |p: (String, String)| (p.0@, p.1@),
                        ) + Seq::<(Seq<char>, Seq<char>)>::empty());
                    },
                    Err(m) => {
                        failed.push((owned(id), owned(m.as_str())));
                        assert(failed@.map_values(|p: (String, String)| (p.0@, p.1@)) =~= f0.map_values(
                            |p: (String, String)| (p.0@, p.1@),
                        ).push((id@, m@)));
                        assert(installed@.map_values(|s: String| s@) =~= i0.map_values(
                            |s: String| s@,
                        ) + Seq::<Seq<char>>::empty());
                        assert(current@.map_values(|s: String| s@) =~= c0.map_values(
                            |s: String| s@,
                        ) + Seq::<Seq<char>>::empty());
                    },
                }
                j = j + 1;
            },
        }
        i = i + 1;
    }
    assert(ids.take(i as int) =~= ids);
    proof {
        lemma_outcomes_len(skills, ids, res);
        lemma_outcomes_partition(ids, outcomes_of(skills, ids, res));
        lemma_not_found_is_absent(skills, ids, res);
    }
    (AutoInstallResult { installed, failed, not_found }, current)
}

} // verus!
