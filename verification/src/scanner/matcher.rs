//! From detected technologies to skill recommendations: the static mapping
//! table, merging with AI recommendations, and ordering.
use vstd::prelude::*;

use crate::models::phase::phase_name;
use crate::models::skill::{registry_lookup, Registry};
use crate::scanner::models::{confidence_rank, Confidence, DetectedTech, SkillRecommendation};
use crate::seqs::{
    as_strs, contains_str, contains_string, flat_map, join, join_strs, lemma_flat_map_full,
    lemma_flat_map_take, strs,
};
use crate::sorting::{
    is_permutation_by, is_stable_sort, lex_le, lex_lt, sorted_by_key, stable_sort_by_key, SortKey,
};
use crate::text::{owned, str_eq};

verus! {

/// The skills the mapping table gives for a technology name.
pub open spec fn tech_skill_ids(name: Seq<char>) -> Seq<Seq<char>> {
    if name == "rust"@ {
        seq!["code/rust/feature"@]
    } else if name == "typescript"@ {
        seq!["code/typescript/feature"@]
    } else if name == "nextjs"@ {
        seq!["code/nextjs/feature"@]
    } else if name == "nestjs"@ {
        seq!["code/nestjs/feature"@]
    } else if name == "python"@ {
        seq!["code/python/feature"@]
    } else if name == "golang"@ {
        seq!["code/golang/feature"@]
    } else if name == "playwright"@ {
        seq!["test/e2e/playwright"@]
    } else if name == "sql"@ {
        seq!["code/database/feature"@]
    } else if name == "prisma"@ {
        seq!["code/database/feature"@]
    } else if name == "drizzle"@ {
        seq!["code/database/feature"@]
    } else if name == "sqlx"@ {
        seq!["code/database/feature"@]
    } else {
        Seq::empty()
    }
}

/// The skills recommended for every project, whatever its stack.
pub open spec fn always_recommended() -> Seq<Seq<char>> {
    seq![
        "research/codebase/explorer"@,
        "review/security/auditor"@,
        "deploy/git/commit"@,
        "deploy/git/pr"@,
        "test/tdd/workflow"@,
        "test/generate/suite"@,
        "test/coverage/analyzer"@,
    ]
}

fn tech_skills(name: &str) -> (r: Vec<&'static str>)
    ensures
        strs(r@) == tech_skill_ids(name@),
{
    let mut r: Vec<&'static str> = Vec::new();
    let id: &'static str = if str_eq(name, "rust") {
        "code/rust/feature"
    } else if str_eq(name, "typescript") {
        "code/typescript/feature"
    } else if str_eq(name, "nextjs") {
        "code/nextjs/feature"
    } else if str_eq(name, "nestjs") {
        "code/nestjs/feature"
    } else if str_eq(name, "python") {
        "code/python/feature"
    } else if str_eq(name, "golang") {
        "code/golang/feature"
    } else if str_eq(name, "playwright") {
        "test/e2e/playwright"
    } else if str_eq(name, "sql") || str_eq(name, "prisma") || str_eq(name, "drizzle") || str_eq(
        name,
        "sqlx",
    ) {
        "code/database/feature"
    } else {
        assert(strs(r@) =~= tech_skill_ids(name@));
        return r;
    };
    r.push(id);
    assert(strs(r@) =~= tech_skill_ids(name@));
    r
}

fn always_list() -> (r: Vec<&'static str>)
    ensures
        strs(r@) == always_recommended(),
{
    let mut r: Vec<&'static str> = Vec::new();
    r.push("research/codebase/explorer");
    r.push("review/security/auditor");
    r.push("deploy/git/commit");
    r.push("deploy/git/pr");
    r.push("test/tdd/workflow");
    r.push("test/generate/suite");
    r.push("test/coverage/analyzer");
    assert(strs(r@) =~= always_recommended());
    r
}

/// A candidate recommendation: skill id, confidence, reason, matched techs.
pub type Candidate = (Seq<char>, Confidence, Seq<char>, Seq<Seq<char>>);

/// The candidates a detected technology brings: each skill of the table for
/// it, with the technology's confidence, its evidence joined by `; `, and
/// its name as the matched technology.
pub open spec fn tech_candidates(t: DetectedTech) -> Seq<Candidate> {
    tech_skill_ids(t.name@).map_values(
        |id: Seq<char>|
            (
                id,
                t.confidence,
                join(t.evidence@.map_values(|e: String| e@), "; "@),
                seq![t.name@],
            ),
    )
}

/// Every candidate, in order: those of the technologies, then the skills
/// always recommended (high confidence, reason `Always recommended`).
pub open spec fn candidates(techs: Seq<DetectedTech>) -> Seq<Candidate> {
    flat_map(techs, |t: DetectedTech| tech_candidates(t)) + always_recommended().map_values(
        |id: Seq<char>| (id, Confidence::High, "Always recommended"@, Seq::<Seq<char>>::empty()),
    )
}

/// A recommendation as plain values.
pub type RecView = (Seq<char>, Seq<char>, Seq<char>, Seq<char>, Confidence, Seq<char>, bool, Seq<
    Seq<char>,
>);

/// The plain values of a recommendation: skill id, name, description, phase,
/// confidence, reason, installed, matched techs.
pub open spec fn rec_view(r: SkillRecommendation) -> RecView {
    (
        r.skill_id@,
        r.name@,
        r.description@,
        r.phase@,
        r.confidence,
        r.reason@,
        r.installed,
        r.matched_techs@.map_values(|m: String| m@),
    )
}

/// The plain values of a list of recommendations.
pub open spec fn recs_view(v: Seq<SkillRecommendation>) -> Seq<RecView> {
    v.map_values(|r: SkillRecommendation| rec_view(r))
}

/// The recommendation a candidate becomes: the registry's skill with that
/// id supplies name, description and phase; none when the registry lacks it.
pub open spec fn built(c: Candidate, registry: Registry, installed: Seq<Seq<char>>) -> Seq<RecView> {
    match registry_lookup(registry.skills@, c.0) {
        Some(skill) => seq![
            (
                c.0,
                skill.name@,
                skill.description@,
                phase_name(skill.phase),
                c.1,
                c.2,
                installed.contains(c.0),
                c.3,
            ),
        ],
        None => Seq::empty(),
    }
}

/// The recommendations from a list of candidates: each candidate whose skill
/// id no earlier candidate had, and that the registry has.
pub open spec fn recommendations_of(
    cands: Seq<Candidate>,
    registry: Registry,
    installed: Seq<Seq<char>>,
) -> Seq<RecView>
    decreases cands.len(),
{
    if cands.len() == 0 {
        Seq::empty()
    } else {
        let pre = cands.drop_last();
        recommendations_of(pre, registry, installed) + if pre.map_values(
            |c: Candidate| c.0,
        ).contains(cands.last().0) {
            Seq::empty()
        } else {
            built(cands.last(), registry, installed)
        }
    }
}

/// No two recommendations are for the same skill.
pub open spec fn distinct_skills(v: Seq<RecView>) -> bool {
    forall|i: int, j: int|
        0 <= i < v.len() && 0 <= j < v.len() && i != j ==> #[trigger] v[i].0 != #[trigger] v[j].0
}

proof fn lemma_recommendations_from(cands: Seq<Candidate>, registry: Registry, installed: Seq<Seq<char>>)
    ensures
        distinct_skills(recommendations_of(cands, registry, installed)),
        forall|k: int|
            0 <= k < recommendations_of(cands, registry, installed).len() ==> cands.map_values(
                |c: Candidate| c.0,
            ).contains(#[trigger] recommendations_of(cands, registry, installed)[k].0),
    decreases cands.len(),
{
    if cands.len() > 0 {
        let pre = cands.drop_last();
        let ids = |c: Candidate| c.0;
        lemma_recommendations_from(pre, registry, installed);
        let before = recommendations_of(pre, registry, installed);
        let all = recommendations_of(cands, registry, installed);
        assert forall|k: int| 0 <= k < all.len() implies cands.map_values(ids).contains(
            #[trigger] all[k].0,
        ) by {
            if k < before.len() {
                assert(all[k] == before[k]);
                let w = choose|w: int| 0 <= w < pre.len() && #[trigger] pre.map_values(ids)[w]
                    == before[k].0;
                assert(cands.map_values(ids)[w] == before[k].0);
            } else {
                assert(all[k].0 == cands.last().0);
                assert(cands.map_values(ids)[cands.len() - 1] == cands.last().0);
            }
        }
        assert forall|i: int, j: int|
            0 <= i < all.len() && 0 <= j < all.len() && i != j implies #[trigger] all[i].0
            != #[trigger] all[j].0 by {
            if i < before.len() && j < before.len() {
                assert(all[i] == before[i] && all[j] == before[j]);
            } else if i < before.len() {
                assert(all[i] == before[i]);
                assert(!pre.map_values(ids).contains(cands.last().0));
            } else if j < before.len() {
                assert(all[j] == before[j]);
                assert(!pre.map_values(ids).contains(cands.last().0));
            }
        }
    }
}

/// What `match_skills` returns recommends each skill at most once.
pub proof fn lemma_match_skills_distinct(techs: Seq<DetectedTech>, registry: Registry, installed: Seq<Seq<char>>)
    ensures
        distinct_skills(recommendations_of(candidates(techs), registry, installed)),
{
    lemma_recommendations_from(candidates(techs), registry, installed);
}

/// The recommendation of skill `skill_id`, with the registry's name,
/// description and phase for it; `None` when the registry lacks the skill.
pub fn build_recommendation(
    skill_id: &str,
    registry: &Registry,
    installed: &Vec<String>,
    confidence: Confidence,
    reason: &str,
    matched_techs: Vec<String>,
) -> (r: Option<SkillRecommendation>)
    ensures
        ({
            let c: Candidate = (
                skill_id@,
                confidence,
                reason@,
                matched_techs@.map_values(|m: String| m@),
            );
            let b = built(c, *registry, installed@.map_values(|s: String| s@));
            match r {
                Some(rec) => b == seq![rec_view(rec)],
                None => b == Seq::<RecView>::empty(),
            }
        }),
{
    match registry.find_by_id(skill_id) {
        Some(skill) => {
            let rec = SkillRecommendation {
                skill_id: owned(skill_id),
                name: owned(skill.name.as_str()),
                description: owned(skill.description.as_str()),
                phase: owned(skill.phase.as_str()),
                confidence,
                reason: owned(reason),
                installed: contains_string(installed, skill_id),
                matched_techs,
            };
            Some(rec)
        },
        None => None,
    }
}

/// Turn one candidate into a recommendation, unless its skill was seen
/// before or the registry lacks it.
fn consider(
    recs: &mut Vec<SkillRecommendation>,
    seen: &mut Vec<&'static str>,
    id: &'static str,
    confidence: Confidence,
    reason: &str,
    matched_techs: Vec<String>,
    registry: &Registry,
    installed: &Vec<String>,
    Ghost(done): Ghost<Seq<Candidate>>,
)
    requires
        strs(old(seen)@) == done.map_values(|c: Candidate| c.0),
        recs_view(old(recs)@) == recommendations_of(
            done,
            *registry,
            installed@.map_values(|s: String| s@),
        ),
    ensures
        ({
            let c: Candidate = (
                id@,
                confidence,
                reason@,
                matched_techs@.map_values(|m: String| m@),
            );
            &&& strs(final(seen)@) == done.push(c).map_values(|c: Candidate| c.0)
            &&& recs_view(final(recs)@) == recommendations_of(
                done.push(c),
                *registry,
                installed@.map_values(|s: String| s@),
            )
        }),
{
    let ghost c: Candidate = (id@, confidence, reason@, matched_techs@.map_values(|m: String| m@));
    let ghost inst = installed@.map_values(|s: String| s@);
    assert(done.push(c).drop_last() =~= done);
    let fresh = !contains_str(seen, id);
    let ghost seen0 = seen@;
    seen.push(id);
    assert(strs(seen@) =~= done.push(c).map_values(|c: Candidate| c.0)) by {
        assert(strs(seen@) =~= strs(seen0).push(id@));
    }
    if fresh {
        match build_recommendation(id, registry, installed, confidence, reason, matched_techs) {
            Some(rec) => {
                let ghost before = recs@;
                recs.push(rec);
                assert(recs_view(recs@) =~= recs_view(before).push(rec_view(rec)));
            },
            None => {
                assert(recs_view(recs@) =~= recs_view(recs@) + Seq::<RecView>::empty());
            },
        }
    } else {
        assert(recs_view(recs@) =~= recs_view(recs@) + Seq::<RecView>::empty());
    }
}

/// Map detected technologies to skill recommendations with the static
/// mapping table: first the table's skills for each technology, in order,
/// then the skills always recommended; a skill comes at most once (its
/// first candidate wins), and only if the registry has it. `installed` marks
/// the recommendations whose skill is installed.
pub fn match_skills(
    techs: &Vec<DetectedTech>,
    registry: &Registry,
    installed: &Vec<String>,
) -> (recs: Vec<SkillRecommendation>)
    ensures
        recs_view(recs@) == recommendations_of(
            candidates(techs@),
            *registry,
            installed@.map_values(|s: String| s@),
        ),
{
    let ghost inst = installed@.map_values(|s: String| s@);
    let ghost ft = |t: DetectedTech| tech_candidates(t);
    let mut recs: Vec<SkillRecommendation> = Vec::new();
    let mut seen: Vec<&'static str> = Vec::new();
    let ghost mut done: Seq<Candidate> = Seq::empty();
    assert(strs(seen@) =~= done.map_values(|c: Candidate| c.0));
    assert(recs_view(recs@) =~= Seq::<RecView>::empty());
    let mut i: usize = 0;
    while i < techs.len()
        invariant
            i <= techs.len(),
            ft == (|t: DetectedTech| tech_candidates(t)),
            done == flat_map(techs@.take(i as int), ft),
            strs(seen@) == done.map_values(|c: Candidate| c.0),
            recs_view(recs@) == recommendations_of(done, *registry, inst),
            inst == installed@.map_values(|s: String| s@),
        decreases techs.len() - i,
    {
        proof {
            lemma_flat_map_take(techs@, ft, i as int);
        }
        let tech = &techs[i];
        let ids = tech_skills(tech.name.as_str());
        let evidence = as_strs(&tech.evidence);
        let reason = join_strs(&evidence, "; ");
        let ghost tc = tech_candidates(*tech);
        let ghost base = done;
        let mut j: usize = 0;
        while j < ids.len()
            invariant
                j <= ids.len(),
                strs(ids@) == tech_skill_ids(tech.name@),
                tc == tech_candidates(*tech),
                reason@ == join(tech.evidence@.map_values(|e: String| e@), "; "@),
                done == base + tc.take(j as int),
                strs(seen@) == done.map_values(|c: Candidate| c.0),
                recs_view(recs@) == recommendations_of(done, *registry, inst),
                inst == installed@.map_values(|s: String| s@),
            decreases ids.len() - j,
        {
            let mut matched: Vec<String> = Vec::new();
            matched.push(owned(tech.name.as_str()));
            assert(matched@.map_values(|m: String| m@) =~= seq![tech.name@]);
            assert(tc[j as int] == (
                ids@[j as int]@,
                tech.confidence,
                reason@,
                matched@.map_values(|m: String| m@),
            ));
            consider(
                &mut recs,
                &mut seen,
                ids[j],
                tech.confidence,
                reason.as_str(),
                matched,
                registry,
                installed,
                Ghost(done),
            );
            proof {
                assert(base + tc.take(j + 1) =~= (base + tc.take(j as int)).push(tc[j as int]));
                done = base + tc.take(j + 1);
            }
            j = j + 1;
        }
        assert(tc.take(j as int) =~= tc);
        i = i + 1;
    }
    proof {
        lemma_flat_map_full(techs@, ft);
    }
    let always = always_list();
    let ghost base = done;
    let ghost ac = always_recommended().map_values(
        |id: Seq<char>| (id, Confidence::High, "Always recommended"@, Seq::<Seq<char>>::empty()),
    );
    let mut k: usize = 0;
    while k < always.len()
        invariant
            k <= always.len(),
            strs(always@) == always_recommended(),
            ac == always_recommended().map_values(
                |id: Seq<char>|
                    (id, Confidence::High, "Always recommended"@, Seq::<Seq<char>>::empty()),
            ),
            base == flat_map(techs@, ft),
            ft == (|t: DetectedTech| tech_candidates(t)),
            done == base + ac.take(k as int),
            strs(seen@) == done.map_values(|c: Candidate| c.0),
            recs_view(recs@) == recommendations_of(done, *registry, inst),
            inst == installed@.map_values(|s: String| s@),
        decreases always.len() - k,
    {
        let matched: Vec<String> = Vec::new();
        assert(matched@.map_values(|m: String| m@) =~= Seq::<Seq<char>>::empty());
        consider(
            &mut recs,
            &mut seen,
            always[k],
            Confidence::High,
            "Always recommended",
            matched,
            registry,
            installed,
            Ghost(done),
        );
        proof {
            assert(base + ac.take(k + 1) =~= (base + ac.take(k as int)).push(ac[k as int]));
            done = base + ac.take(k + 1);
        }
        k = k + 1;
    }
    assert(ac.take(k as int) =~= ac);
    assert(done =~= candidates(techs@));
    recs
}

/// The position of a phase in the workflow: research, code, test, review,
/// deploy, teams, then anything else.
pub open spec fn phase_order(p: Seq<char>) -> int {
    if p == "research"@ {
        0
    } else if p == "code"@ {
        1
    } else if p == "test"@ {
        2
    } else if p == "review"@ {
        3
    } else if p == "deploy"@ {
        4
    } else if p == "teams"@ {
        5
    } else {
        6
    }
}

fn phase_order_of(p: &str) -> (r: u32)
    ensures
        r == phase_order(p@),
{
    if str_eq(p, "research") {
        0
    } else if str_eq(p, "code") {
        1
    } else if str_eq(p, "test") {
        2
    } else if str_eq(p, "review") {
        3
    } else if str_eq(p, "deploy") {
        4
    } else if str_eq(p, "teams") {
        5
    } else {
        6
    }
}

impl SortKey for SkillRecommendation {
    /// Phase order first, then confidence from high to low.
    open spec fn key(&self) -> Seq<int> {
        seq![phase_order(self.phase@), 2 - confidence_rank(self.confidence)]
    }

    fn key_exec(&self) -> (k: Vec<u32>) {
        let mut k: Vec<u32> = Vec::new();
        k.push(phase_order_of(self.phase.as_str()));
        k.push(2 - self.confidence.rank() as u32);
        assert(k@.map_values(|x: u32| x as int) =~= self.key());
        k
    }
}

/// Sort recommendations by phase order, then by confidence from high to
/// low; the sort is stable.
pub fn sort_recommendations(recs: &mut Vec<SkillRecommendation>)
    ensures
        is_stable_sort(old(recs)@, final(recs)@),
{
    let mut taken: Vec<SkillRecommendation> = Vec::new();
    std::mem::swap(&mut taken, recs);
    *recs = stable_sort_by_key(taken);
}

/// The workflow phases in order.
pub open spec fn workflow_phases() -> Seq<Seq<char>> {
    seq!["research"@, "code"@, "test"@, "review"@, "deploy"@, "teams"@]
}

/// Sorted recommendations follow the workflow: a recommendation of a
/// workflow phase (research, code, test, review, deploy, teams, in that
/// order) is never preceded by one of a later workflow phase, nor by one of
/// a phase outside the workflow.
pub proof fn lemma_sorted_follows_workflow(before: Seq<SkillRecommendation>, after: Seq<SkillRecommendation>)
    requires
        is_stable_sort(before, after),
    ensures
        forall|i: int, j: int, a: int, b: int|
            #![trigger after[i].phase, after[j].phase, workflow_phases()[a], workflow_phases()[b]]
            0 <= i < j < after.len() && 0 <= a < b < 6 && after[j].phase@ == workflow_phases()[a]
                ==> after[i].phase@ != workflow_phases()[b],
        forall|i: int, j: int, a: int|
            #![trigger after[i].phase, after[j].phase, workflow_phases()[a]]
            0 <= i < j < after.len() && 0 <= a < 6 && after[j].phase@ == workflow_phases()[a]
                ==> workflow_phases().contains(after[i].phase@),
{
    let perm = choose|perm: Seq<int>|
        {
            &&& is_permutation_by(before, after, perm)
            &&& sorted_by_key(after)
            &&& forall|k: int, l: int|
                0 <= k < l < after.len() && after[k].key() == after[l].key() ==> perm[k] < perm[l]
        };
    assert(sorted_by_key(after));
    let w = workflow_phases();
    reveal_strlit("research");
    reveal_strlit("code");
    reveal_strlit("test");
    reveal_strlit("review");
    reveal_strlit("deploy");
    reveal_strlit("teams");
    assert("research"@.len() == 8 && "code"@.len() == 4 && "test"@.len() == 4);
    assert("review"@.len() == 6 && "deploy"@.len() == 6 && "teams"@.len() == 5);
    assert("code"@[0] != "test"@[0]);
    assert("review"@[0] != "deploy"@[0]);
    assert forall|a: int| 0 <= a < 6 implies phase_order(#[trigger] w[a]) == a by {
        if a == 0 {
            assert(w[0] == "research"@);
        } else if a == 1 {
            assert(w[1] == "code"@);
        } else if a == 2 {
            assert(w[2] == "test"@);
        } else if a == 3 {
            assert(w[3] == "review"@);
        } else if a == 4 {
            assert(w[4] == "deploy"@);
        } else {
            assert(w[5] == "teams"@);
        }
    }
    assert forall|x: Seq<char>| !w.contains(x) implies phase_order(x) == 6 by {
        if phase_order(x) != 6 {
            assert(w[phase_order(x)] == x);
        }
    }
    assert forall|i: int, j: int, a: int|
        0 <= i < j < after.len() && 0 <= a < 6 && after[j].phase@ == w[a] implies phase_order(
        after[i].phase@) <= a by {
        let ki = after[i].key();
        let kj = after[j].key();
        assert(lex_le(ki, kj));
        assert(kj[0] == a);
        if phase_order(after[i].phase@) > a {
            assert(ki[0] > kj[0]);
            assert(lex_lt(kj, ki));
        }
    }
    assert forall|i: int, j: int, a: int, b: int|
        #![trigger after[i].phase, after[j].phase, workflow_phases()[a], workflow_phases()[b]]
        0 <= i < j < after.len() && 0 <= a < b < 6 && after[j].phase@ == workflow_phases()[a]
            implies after[i].phase@ != workflow_phases()[b] by {
        if after[i].phase@ == w[b] {
            assert(phase_order(after[i].phase@) == b);
        }
    }
    assert forall|i: int, j: int, a: int|
        #![trigger after[i].phase, after[j].phase, workflow_phases()[a]]
        0 <= i < j < after.len() && 0 <= a < 6 && after[j].phase@ == workflow_phases()[a]
            implies workflow_phases().contains(after[i].phase@) by {
        if !w.contains(after[i].phase@) {
            assert(phase_order(after[i].phase@) == 6);
        }
    }
}

/// The recommendation for skill `id` in `m`, if any (the last one).
pub open spec fn rec_for(m: Seq<SkillRecommendation>, id: Seq<char>) -> Option<SkillRecommendation>
    decreases m.len(),
{
    if m.len() == 0 {
        None
    } else if m.last().skill_id@ == id {
        Some(m.last())
    } else {
        rec_for(m.drop_last(), id)
    }
}

/// `m` with the recommendation of `r`'s skill replaced by `r`.
pub open spec fn replace_rec(m: Seq<SkillRecommendation>, r: SkillRecommendation) -> Seq<
    SkillRecommendation,
>
    decreases m.len(),
{
    if m.len() == 0 {
        m
    } else if m.last().skill_id@ == r.skill_id@ {
        replace_rec(m.drop_last(), r).push(r)
    } else {
        replace_rec(m.drop_last(), r).push(m.last())
    }
}

/// A map from skill id to recommendation, kept as a list in insertion
/// order: `r` replaces the entry of its skill, or is added at the end.
pub open spec fn put_rec(m: Seq<SkillRecommendation>, r: SkillRecommendation) -> Seq<
    SkillRecommendation,
> {
    match rec_for(m, r.skill_id@) {
        Some(_) => replace_rec(m, r),
        None => m.push(r),
    }
}

/// The map of the deterministic recommendations: each put in turn.
pub open spec fn put_all(det: Seq<SkillRecommendation>) -> Seq<SkillRecommendation>
    decreases det.len(),
{
    if det.len() == 0 {
        Seq::empty()
    } else {
        put_rec(put_all(det.drop_last()), det.last())
    }
}

/// Whether an AI recommendation takes the place of what `m` holds for its
/// skill: when there is none, or its confidence is at least as high.
pub open spec fn ai_replaces(m: Seq<SkillRecommendation>, r: SkillRecommendation) -> bool {
    match rec_for(m, r.skill_id@) {
        None => true,
        Some(e) => confidence_rank(r.confidence) >= confidence_rank(e.confidence),
    }
}

/// The map after merging the AI recommendations into `m`, in turn.
pub open spec fn merge_ai(m: Seq<SkillRecommendation>, ai: Seq<SkillRecommendation>) -> Seq<
    SkillRecommendation,
>
    decreases ai.len(),
{
    if ai.len() == 0 {
        m
    } else {
        let m2 = merge_ai(m, ai.drop_last());
        if ai_replaces(m2, ai.last()) {
            put_rec(m2, ai.last())
        } else {
            m2
        }
    }
}

/// No two entries of `m` are for the same skill.
pub open spec fn unique_skills(m: Seq<SkillRecommendation>) -> bool {
    forall|i: int, j: int|
        0 <= i < m.len() && 0 <= j < m.len() && i != j ==> #[trigger] m[i].skill_id@
            != #[trigger] m[j].skill_id@
}

proof fn lemma_rec_for_at(m: Seq<SkillRecommendation>, id: Seq<char>, k: int)
    requires
        unique_skills(m),
        0 <= k < m.len(),
        m[k].skill_id@ == id,
    ensures
        rec_for(m, id) == Some(m[k]),
    decreases m.len(),
{
    if k < m.len() - 1 {
        assert(m.drop_last()[k] == m[k]);
        assert(m.last().skill_id@ != id) by {
            assert(m[m.len() - 1].skill_id@ != m[k].skill_id@);
        }
        lemma_rec_for_at(m.drop_last(), id, k);
    }
}

proof fn lemma_replace_at(m: Seq<SkillRecommendation>, r: SkillRecommendation, k: int)
    requires
        unique_skills(m),
        0 <= k < m.len(),
        m[k].skill_id@ == r.skill_id@,
    ensures
        replace_rec(m, r) == m.update(k, r),
    decreases m.len(),
{
    if m.len() > 0 {
        let pre = m.drop_last();
        if k < m.len() - 1 {
            assert(m.last().skill_id@ != r.skill_id@) by {
                assert(m[m.len() - 1].skill_id@ != m[k].skill_id@);
            }
            assert(pre[k] == m[k]);
            lemma_replace_at(pre, r, k);
            assert(pre.update(k, r).push(m.last()) =~= m.update(k, r));
        } else {
            lemma_replace_none(pre, r);
            assert(pre.push(r) =~= m.update(k, r));
        }
    }
}

proof fn lemma_replace_none(m: Seq<SkillRecommendation>, r: SkillRecommendation)
    requires
        forall|j: int| 0 <= j < m.len() ==> #[trigger] m[j].skill_id@ != r.skill_id@,
    ensures
        replace_rec(m, r) == m,
        rec_for(m, r.skill_id@) is None,
    decreases m.len(),
{
    if m.len() > 0 {
        assert(m.last() == m[m.len() - 1]);
        lemma_replace_none(m.drop_last(), r);
        assert(m.drop_last().push(m.last()) =~= m);
    }
}

/// Put `r` into the map `m`.
fn put_exec(m: &mut Vec<SkillRecommendation>, r: SkillRecommendation)
    requires
        unique_skills(old(m)@),
    ensures
        unique_skills(final(m)@),
        final(m)@ == put_rec(old(m)@, r),
{
    match position_of_skill(m, r.skill_id.as_str()) {
        Some(k) => {
            proof {
                lemma_rec_for_at(m@, r.skill_id@, k as int);
                lemma_replace_at(m@, r, k as int);
            }
            m.set(k, r);
        },
        None => {
            proof {
                lemma_replace_none(m@, r);
            }
            let ghost before = m@;
            m.push(r);
            assert(unique_skills(m@)) by {
                assert forall|i: int, j: int|
                    0 <= i < m@.len() && 0 <= j < m@.len() && i != j implies #[trigger] m@[i].skill_id@
                    != #[trigger] m@[j].skill_id@ by {
                    if i < before.len() && j < before.len() {
                        assert(before[i] == m@[i] && before[j] == m@[j]);
                    } else if i < before.len() {
                        assert(before[i] == m@[i]);
                    } else {
                        assert(before[j] == m@[j]);
                    }
                }
            }
        },
    }
}

/// The position of the entry of skill `id` in `m`.
fn position_of_skill(m: &Vec<SkillRecommendation>, id: &str) -> (r: Option<usize>)
    ensures
        match r {
            Some(k) => k < m@.len() && m@[k as int].skill_id@ == id@,
            None => forall|j: int| 0 <= j < m@.len() ==> #[trigger] m@[j].skill_id@ != id@,
        },
{
    let mut k: usize = 0;
    while k < m.len()
        invariant
            k <= m.len(),
            forall|j: int| 0 <= j < k ==> #[trigger] m@[j].skill_id@ != id@,
        decreases m.len() - k,
    {
        if str_eq(m[k].skill_id.as_str(), id) {
            return Some(k);
        }
        k = k + 1;
    }
    None
}

proof fn lemma_rec_for_found(m: Seq<SkillRecommendation>, id: Seq<char>)
    ensures
        rec_for(m, id) is None ==> forall|j: int| 0 <= j < m.len() ==> #[trigger] m[j].skill_id@ != id,
        rec_for(m, id) is Some ==> exists|k: int| 0 <= k < m.len() && #[trigger] m[k].skill_id@ == id,
    decreases m.len(),
{
    if m.len() > 0 {
        lemma_rec_for_found(m.drop_last(), id);
        if m.last().skill_id@ == id {
            assert(m[m.len() - 1].skill_id@ == id);
        } else {
            assert forall|j: int| 0 <= j < m.len() - 1 implies #[trigger] m[j].skill_id@ == m.drop_last()[j].skill_id@ by {}
            if rec_for(m.drop_last(), id) is Some {
                let k = choose|k: int| 0 <= k < m.drop_last().len() && #[trigger] m.drop_last()[k].skill_id@ == id;
                assert(m[k].skill_id@ == id);
            }
        }
    }
}

proof fn lemma_put_unique(m: Seq<SkillRecommendation>, r: SkillRecommendation)
    requires
        unique_skills(m),
    ensures
        unique_skills(put_rec(m, r)),
{
    lemma_rec_for_found(m, r.skill_id@);
    match rec_for(m, r.skill_id@) {
        Some(_) => {
            let k = choose|k: int| 0 <= k < m.len() && #[trigger] m[k].skill_id@ == r.skill_id@;
            lemma_replace_at(m, r, k);
            let u = m.update(k, r);
            assert forall|i: int, j: int|
                0 <= i < u.len() && 0 <= j < u.len() && i != j implies #[trigger] u[i].skill_id@
                != #[trigger] u[j].skill_id@ by {
                if i != k && j != k {
                    assert(u[i] == m[i] && u[j] == m[j]);
                } else if i == k {
                    assert(u[j] == m[j]);
                    assert(m[k].skill_id@ != m[j].skill_id@);
                } else {
                    assert(u[i] == m[i]);
                    assert(m[k].skill_id@ != m[i].skill_id@);
                }
            }
        },
        None => {
            let u = m.push(r);
            assert forall|i: int, j: int|
                0 <= i < u.len() && 0 <= j < u.len() && i != j implies #[trigger] u[i].skill_id@
                != #[trigger] u[j].skill_id@ by {
                if i < m.len() && j < m.len() {
                    assert(u[i] == m[i] && u[j] == m[j]);
                } else if i < m.len() {
                    assert(u[i] == m[i]);
                } else {
                    assert(u[j] == m[j]);
                }
            }
        },
    }
}

proof fn lemma_put_all_unique(det: Seq<SkillRecommendation>)
    ensures
        unique_skills(put_all(det)),
    decreases det.len(),
{
    if det.len() > 0 {
        lemma_put_all_unique(det.drop_last());
        lemma_put_unique(put_all(det.drop_last()), det.last());
    }
}

proof fn lemma_merge_ai_unique(m: Seq<SkillRecommendation>, ai: Seq<SkillRecommendation>)
    requires
        unique_skills(m),
    ensures
        unique_skills(merge_ai(m, ai)),
    decreases ai.len(),
{
    if ai.len() > 0 {
        lemma_merge_ai_unique(m, ai.drop_last());
        lemma_put_unique(merge_ai(m, ai.drop_last()), ai.last());
    }
}

/// The merged recommendations hold at most one recommendation per skill.
pub proof fn lemma_merge_distinct(
    det: Seq<SkillRecommendation>,
    ai: Seq<SkillRecommendation>,
    merged: Seq<SkillRecommendation>,
)
    requires
        is_stable_sort(merge_ai(put_all(det), ai), merged),
    ensures
        unique_skills(merged),
{
    let v = merge_ai(put_all(det), ai);
    lemma_put_all_unique(det);
    lemma_merge_ai_unique(put_all(det), ai);
    let perm = choose|perm: Seq<int>|
        {
            &&& is_permutation_by(v, merged, perm)
            &&& sorted_by_key(merged)
            &&& forall|k: int, l: int|
                0 <= k < l < merged.len() && merged[k].key() == merged[l].key() ==> perm[k] < perm[l]
        };
    assert forall|i: int, j: int|
        0 <= i < merged.len() && 0 <= j < merged.len() && i != j implies #[trigger] merged[i].skill_id@
        != #[trigger] merged[j].skill_id@ by {
        assert(merged[i] == v[perm[i]]);
        assert(merged[j] == v[perm[j]]);
        if i < j {
            assert(perm[i] != perm[j]);
        } else {
            assert(perm[j] != perm[i]);
        }
    }
}

proof fn lemma_rec_for_absent(m: Seq<SkillRecommendation>, id: Seq<char>)
    requires
        forall|j: int| 0 <= j < m.len() ==> #[trigger] m[j].skill_id@ != id,
    ensures
        rec_for(m, id) is None,
    decreases m.len(),
{
    if m.len() > 0 {
        assert(m.last() == m[m.len() - 1]);
        assert forall|j: int| 0 <= j < m.len() - 1 implies #[trigger] m.drop_last()[j].skill_id@ != id by {
            assert(m.drop_last()[j] == m[j]);
        }
        lemma_rec_for_absent(m.drop_last(), id);
    }
}

/// The confidence rank of the entry of skill `id`, if there is one.
pub open spec fn entry_rank(m: Seq<SkillRecommendation>, id: Seq<char>) -> Option<int> {
    match rec_for(m, id) {
        Some(e) => Some(confidence_rank(e.confidence)),
        None => None,
    }
}

proof fn lemma_put_entries(m: Seq<SkillRecommendation>, r: SkillRecommendation, id: Seq<char>)
    requires
        unique_skills(m),
    ensures
        rec_for(put_rec(m, r), r.skill_id@) == Some(r),
        id != r.skill_id@ ==> rec_for(put_rec(m, r), id) == rec_for(m, id),
{
    lemma_put_unique(m, r);
    lemma_rec_for_found(m, r.skill_id@);
    lemma_rec_for_found(m, id);
    match rec_for(m, r.skill_id@) {
        Some(_) => {
            let k = choose|k: int| 0 <= k < m.len() && #[trigger] m[k].skill_id@ == r.skill_id@;
            lemma_replace_at(m, r, k);
            let u = m.update(k, r);
            lemma_rec_for_at(u, r.skill_id@, k);
            if id != r.skill_id@ {
                if rec_for(m, id) is Some {
                    let j = choose|j: int| 0 <= j < m.len() && #[trigger] m[j].skill_id@ == id;
                    lemma_rec_for_at(m, id, j);
                    assert(u[j] == m[j]);
                    lemma_rec_for_at(u, id, j);
                } else {
                    assert forall|j: int| 0 <= j < u.len() implies #[trigger] u[j].skill_id@ != id by {
                        if j != k {
                            assert(u[j] == m[j]);
                        }
                    }
                    lemma_rec_for_absent(u, id);
                }
            }
        },
        None => {
            assert(m.push(r).drop_last() =~= m);
        },
    }
}

proof fn lemma_merge_ai_ranks(m: Seq<SkillRecommendation>, ai: Seq<SkillRecommendation>)
    requires
        unique_skills(m),
    ensures
        forall|id: Seq<char>|
            #[trigger] entry_rank(m, id) is Some ==> entry_rank(merge_ai(m, ai), id) is Some
                && entry_rank(merge_ai(m, ai), id)->0 >= entry_rank(m, id)->0,
        forall|k: int|
            0 <= k < ai.len() ==> entry_rank(merge_ai(m, ai), #[trigger] ai[k].skill_id@) is Some
                && entry_rank(merge_ai(m, ai), ai[k].skill_id@)->0 >= confidence_rank(
                ai[k].confidence,
            ),
    decreases ai.len(),
{
    if ai.len() > 0 {
        let pre = ai.drop_last();
        let a = ai.last();
        let m2 = merge_ai(m, pre);
        lemma_merge_ai_ranks(m, pre);
        lemma_merge_ai_unique(m, pre);
        let m3 = merge_ai(m, ai);
        // how the last AI recommendation changes the entries
        assert forall|id: Seq<char>| #[trigger] entry_rank(m2, id) is Some implies entry_rank(m3, id) is Some
            && entry_rank(m3, id)->0 >= entry_rank(m2, id)->0 by {
            if ai_replaces(m2, a) {
                lemma_put_entries(m2, a, id);
            }
        }
        assert(entry_rank(m3, a.skill_id@) is Some && entry_rank(m3, a.skill_id@)->0
            >= confidence_rank(a.confidence)) by {
            if ai_replaces(m2, a) {
                lemma_put_entries(m2, a, a.skill_id@);
            }
        }
        assert forall|id: Seq<char>| #[trigger] entry_rank(m, id) is Some implies entry_rank(m3, id) is Some
            && entry_rank(m3, id)->0 >= entry_rank(m, id)->0 by {
            assert(entry_rank(m2, id) is Some);
        }
        assert forall|k: int| 0 <= k < ai.len() implies entry_rank(m3, #[trigger] ai[k].skill_id@) is Some
            && entry_rank(m3, ai[k].skill_id@)->0 >= confidence_rank(ai[k].confidence) by {
            if k < ai.len() - 1 {
                assert(pre[k] == ai[k]);
                assert(entry_rank(m2, pre[k].skill_id@) is Some);
            }
        }
    }
}

/// Merging keeps, for the skill of every AI recommendation, an entry at
/// least as confident as that recommendation: a less confident AI
/// recommendation never displaces a more confident one.
pub proof fn lemma_merge_keeps_confidence(det: Seq<SkillRecommendation>, ai: Seq<SkillRecommendation>, k: int)
    requires
        0 <= k < ai.len(),
    ensures
        entry_rank(merge_ai(put_all(det), ai), ai[k].skill_id@) is Some,
        entry_rank(merge_ai(put_all(det), ai), ai[k].skill_id@)->0 >= confidence_rank(
            ai[k].confidence,
        ),
{
    lemma_put_all_unique(det);
    lemma_merge_ai_ranks(put_all(det), ai);
}

/// Merge deterministic and AI recommendations, one per skill: the
/// deterministic ones go in first (a later one replaces an earlier one of
/// the same skill); an AI recommendation then replaces the one of its skill
/// when its confidence is at least as high (on a tie the AI's reason, which
/// is richer, wins), or is added. The result is sorted by
/// `sort_recommendations`; among recommendations of equal phase and
/// confidence it keeps the order in which their skills were first added.
pub fn merge_recommendations(det: Vec<SkillRecommendation>, ai: Vec<SkillRecommendation>) -> (r:
    Vec<SkillRecommendation>)
    ensures
        is_stable_sort(merge_ai(put_all(det@), ai@), r@),
{
    let ghost det0 = det@;
    let ghost ai0 = ai@;
    let mut map: Vec<SkillRecommendation> = Vec::new();
    let mut det = det;
    let n_det = det.len();
    let mut i: usize = 0;
    assert(det0.skip(0) =~= det0);
    while det.len() > 0
        invariant
            i <= det0.len(),
            det0.len() == n_det,
            det@ == det0.skip(i as int),
            unique_skills(map@),
            map@ == put_all(det0.take(i as int)),
        decreases det.len(),
    {
        assert(det@.len() == det0.len() - i);
        let rec = det.remove(0);
        assert(det0.take(i + 1).drop_last() =~= det0.take(i as int));
        assert(det0.skip(i + 1) =~= det0.skip(i as int).drop_first());
        put_exec(&mut map, rec);
        i = i + 1;
    }
    assert(det0.take(i as int) =~= det0);
    let ghost base = map@;
    let mut ai = ai;
    let n_ai = ai.len();
    let mut j: usize = 0;
    assert(ai0.skip(0) =~= ai0);
    while ai.len() > 0
        invariant
            j <= ai0.len(),
            ai0.len() == n_ai,
            ai@ == ai0.skip(j as int),
            unique_skills(map@),
            map@ == merge_ai(base, ai0.take(j as int)),
        decreases ai.len(),
    {
        assert(ai@.len() == ai0.len() - j);
        let rec = ai.remove(0);
        assert(ai0.take(j + 1).drop_last() =~= ai0.take(j as int));
        assert(ai0.skip(j + 1) =~= ai0.skip(j as int).drop_first());
        let replace = match position_of_skill(&map, rec.skill_id.as_str()) {
            None => {
                proof {
                    lemma_replace_none(map@, rec);
                }
                true
            },
            Some(k) => {
                proof {
                    lemma_rec_for_at(map@, rec.skill_id@, k as int);
                }
                rec.confidence.at_least(&map[k].confidence)
            },
        };
        if replace {
            put_exec(&mut map, rec);
        }
        j = j + 1;
    }
    assert(ai0.take(j as int) =~= ai0);
    stable_sort_by_key(map)
}

} // verus!
