//! The AI side of scanning: the prompts sent to the agent CLI, the JSON
//! block read back from its answer, and the recommendations made of it.
use vstd::prelude::*;

use crate::lint::{last_segment, skill_name};
use crate::models::phase::phase_name;
use crate::models::skill::Skill;
use crate::scanner::models::{AiSkillRecommendation, AiTechDeepDive, DetectedTech, SkillRecommendation};
use crate::seqs::{as_strs, join, join_strs};
use crate::text::{chars_of, find, find_chars, owned, push_str, trim};

verus! {

/// The JSON between the first ` ```json ` and the next ` ``` ` after it,
/// trimmed; `None` when either marker is missing.
pub open spec fn json_block(text: Seq<char>) -> Option<Seq<char>> {
    match find(text, "```json"@) {
        Some(start) => {
            let rest = text.skip(start + "```json"@.len());
            match find(rest, "```"@) {
                Some(end) => Some(trim(rest.take(end))),
                None => None,
            }
        },
        None => None,
    }
}

/// Extract the JSON content between ` ```json ` and ` ``` ` delimiters.
pub fn extract_json_block(text: &str) -> (r: Option<&str>)
    ensures
        match r {
            Some(j) => json_block(text@) == Some(j@),
            None => json_block(text@) is None,
        },
{
    let cs = chars_of(text);
    let open = chars_of("```json");
    let close = chars_of("```");
    let start = match find_chars(&cs, &open, 0) {
        Some(s) => s,
        None => {
            return None;
        },
    };
    let n = cs.len();
    assert(start + open@.len() <= n);
    let json_start = start + open.len();
    proof {
        crate::frontmatter::lemma_find_shift(text@, "```"@, json_start as int);
    }
    let end = match find_chars(&cs, &close, json_start) {
        Some(e) => e,
        None => {
            return None;
        },
    };
    let a = crate::text::leading_ws(&cs, json_start, end);
    let b = crate::text::trailing_ws_end(&cs, a, end);
    proof {
        let rest = text@.skip(json_start as int);
        assert(rest.take(end - json_start) =~= cs@.subrange(json_start as int, end as int));
    }
    Some(text.substring_char(a, b))
}

/// The phase part of a skill id: what comes before its first `/`.
pub open spec fn first_segment(id: Seq<char>) -> Seq<char> {
    match find(id, seq!['/']) {
        Some(k) => id.take(k),
        None => id,
    }
}

fn phase_part(id: &str) -> (r: &str)
    ensures
        r@ == first_segment(id@),
{
    let cs = chars_of(id);
    let mut slash: Vec<char> = Vec::new();
    slash.push('/');
    match find_chars(&cs, &slash, 0) {
        Some(k) => {
            assert(id@.subrange(0, k as int) =~= id@.take(k as int));
            id.substring_char(0, k)
        },
        None => {
            assert(id@.subrange(0, cs.len() as int) =~= id@);
            id.substring_char(0, cs.len())
        },
    }
}

/// A recommendation made of an AI deep-dive recommendation for `tech_name`:
/// the skill id's last segment as name, its first segment as phase, no
/// description (the merge fills it in), not installed.
pub fn ai_rec_to_skill_rec(ai: AiSkillRecommendation, tech_name: &str) -> (r: SkillRecommendation)
    ensures
        r.skill_id@ == ai.skill_id@,
        r.name@ == last_segment(ai.skill_id@),
        r.description@ == Seq::<char>::empty(),
        r.phase@ == first_segment(ai.skill_id@),
        r.confidence == ai.confidence,
        r.reason@ == ai.reason@,
        !r.installed,
        r.matched_techs@.map_values(|m: String| m@) == seq![tech_name@],
{
    let name = owned(skill_name(ai.skill_id.as_str()));
    let phase = owned(phase_part(ai.skill_id.as_str()));
    let mut matched: Vec<String> = Vec::new();
    matched.push(owned(tech_name));
    assert(matched@.map_values(|m: String| m@) =~= seq![tech_name@]);
    SkillRecommendation {
        skill_id: ai.skill_id,
        name,
        description: String::new(),
        phase,
        confidence: ai.confidence,
        reason: ai.reason,
        installed: false,
        matched_techs: matched,
    }
}

/// The recommendations of a deep dive into `tech_name`, in order.
pub fn dive_recommendations(dive: AiTechDeepDive, tech_name: &str) -> (r: Vec<SkillRecommendation>)
    ensures
        r@.len() == dive.recommended_skills@.len(),
        forall|i: int|
            0 <= i < r@.len() ==> {
                let a = #[trigger] dive.recommended_skills@[i];
                &&& r@[i].skill_id@ == a.skill_id@
                &&& r@[i].name@ == last_segment(a.skill_id@)
                &&& r@[i].description@ == Seq::<char>::empty()
                &&& r@[i].phase@ == first_segment(a.skill_id@)
                &&& r@[i].confidence == a.confidence
                &&& r@[i].reason@ == a.reason@
                &&& !r@[i].installed
                &&& r@[i].matched_techs@.map_values(|m: String| m@) == seq![tech_name@]
            },
{
    let ghost recs0 = dive.recommended_skills@;
    let mut src = dive.recommended_skills;
    let n = src.len();
    let mut out: Vec<SkillRecommendation> = Vec::new();
    let mut i: usize = 0;
    while src.len() > 0
        invariant
            i <= n,
            n == recs0.len(),
            src@ == recs0.skip(i as int),
            out@.len() == i,
            forall|k: int|
                0 <= k < i ==> {
                    let a = #[trigger] recs0[k];
                    &&& out@[k].skill_id@ == a.skill_id@
                    &&& out@[k].name@ == last_segment(a.skill_id@)
                    &&& out@[k].description@ == Seq::<char>::empty()
                    &&& out@[k].phase@ == first_segment(a.skill_id@)
                    &&& out@[k].confidence == a.confidence
                    &&& out@[k].reason@ == a.reason@
                    &&& !out@[k].installed
                    &&& out@[k].matched_techs@.map_values(|m: String| m@) == seq![tech_name@]
                },
        decreases src.len(),
    {
        assert(src@.len() == n - i);
        assert(src@[0] == recs0[i as int]);
        let a = src.remove(0);
        assert(recs0.skip(i + 1) =~= recs0.skip(i as int).drop_first());
        out.push(ai_rec_to_skill_rec(a, tech_name));
        i = i + 1;
    }
    out
}

/// The catalog line of a skill: `- <id> (<phase>): <description>`.
pub open spec fn catalog_line(s: Skill) -> Seq<char> {
    "- "@ + s.id@ + " ("@ + phase_name(s.phase) + "): "@ + s.description@
}

/// The skill catalog sent to the AI: one line per skill, joined by newlines.
pub fn build_skill_catalog(skills: &Vec<Skill>) -> (r: String)
    ensures
        r@ == join(skills@.map_values(|s: Skill| catalog_line(s)), "\n"@),
{
    let ghost lines = skills@.map_values(|s: Skill| catalog_line(s));
    let mut r = String::new();
    let mut i: usize = 0;
    while i < skills.len()
        invariant
            i <= skills.len(),
            lines == skills@.map_values(|s: Skill| catalog_line(s)),
            r@ == join(lines.take(i as int), "\n"@),
        decreases skills.len() - i,
    {
        let s = &skills[i];
        let ghost prev = lines.take(i as int);
        if i > 0 {
            push_str(&mut r, "\n");
        }
        push_str(&mut r, "- ");
        push_str(&mut r, s.id.as_str());
        push_str(&mut r, " (");
        push_str(&mut r, s.phase.as_str());
        push_str(&mut r, "): ");
        push_str(&mut r, s.description.as_str());
        assert(lines.take(i + 1).drop_last() =~= prev);
        assert(lines.take(i + 1).last() == catalog_line(*s));
        if i == 0 {
            assert(r@ =~= join(lines.take(1), "\n"@));
        } else {
            assert(r@ =~= join(prev, "\n"@) + "\n"@ + catalog_line(*s));
        }
        i = i + 1;
    }
    assert(lines.take(i as int) =~= lines);
    r
}

/// The summary line of a detected technology:
/// `- <name> (<category>): <evidence, comma separated>`.
pub open spec fn tech_summary_line(t: DetectedTech) -> Seq<char> {
    "- "@ + t.name@ + " ("@ + t.category@ + "): "@ + join(
        t.evidence@.map_values(|e: String| e@),
        ", "@,
    )
}

/// The part of the analysis prompt before the project root.
pub open spec fn analysis_intro() -> Seq<char> {
    "Analyze the project at "@
}

/// The part of the analysis prompt between the root and the technologies.
pub open spec fn analysis_middle() -> Seq<char> {
    " for technologies used. I've already detected these:\n\n"@
}

/// The part of the analysis prompt after the technologies.
pub open spec fn analysis_outro() -> Seq<char> {
    "\n\nLook deeper for additional technologies, frameworks, patterns, or tools that filesystem scanning might miss. Check configuration files, import patterns, and project structure.\n\nOutput ONLY a JSON block with this structure:\n```json\n{\n  \"technologies\": [\n    {\n      \"name\": \"technology-name\",\n      \"category\": \"language|framework|database|testing|styling|devops|async|web\",\n      \"confidence\": \"high|medium|low\",\n      \"evidence\": [\"reason1\", \"reason2\"]\n    }\n  ]\n}\n```\n\nInclude both what I already found (confirmed) and any new discoveries. Use lowercase names."@
}

fn tech_summary(t: &DetectedTech) -> (r: String)
    ensures
        r@ == tech_summary_line(*t),
{
    let mut r = owned("- ");
    push_str(&mut r, t.name.as_str());
    push_str(&mut r, " (");
    push_str(&mut r, t.category.as_str());
    push_str(&mut r, "): ");
    let ev = as_strs(&t.evidence);
    push_str(&mut r, join_strs(&ev, ", ").as_str());
    r
}

/// The prompt of the initial analysis: the project root and the
/// technologies found so far, one summary line each, then the instructions
/// and the JSON shape to answer with.
pub fn analysis_prompt(root: &str, techs: &Vec<DetectedTech>) -> (r: String)
    ensures
        r@ == analysis_intro() + root@ + analysis_middle() + join(
            techs@.map_values(|t: DetectedTech| tech_summary_line(t)),
            "\n"@,
        ) + analysis_outro(),
{
    let ghost lines = techs@.map_values(|t: DetectedTech| tech_summary_line(t));
    let mut summary = String::new();
    let mut i: usize = 0;
    while i < techs.len()
        invariant
            i <= techs.len(),
            lines == techs@.map_values(|t: DetectedTech| tech_summary_line(t)),
            summary@ == join(lines.take(i as int), "\n"@),
        decreases techs.len() - i,
    {
        let ghost prev = lines.take(i as int);
        if i > 0 {
            push_str(&mut summary, "\n");
        }
        push_str(&mut summary, tech_summary(&techs[i]).as_str());
        assert(lines.take(i + 1).drop_last() =~= prev);
        if i == 0 {
            assert(summary@ =~= join(lines.take(1), "\n"@));
        }
        i = i + 1;
    }
    assert(lines.take(i as int) =~= lines);
    let mut r = owned("Analyze the project at ");
    push_str(&mut r, root);
    push_str(&mut r, " for technologies used. I've already detected these:\n\n");
    push_str(&mut r, summary.as_str());
    push_str(
        &mut r,
        "\n\nLook deeper for additional technologies, frameworks, patterns, or tools that filesystem scanning might miss. Check configuration files, import patterns, and project structure.\n\nOutput ONLY a JSON block with this structure:\n```json\n{\n  \"technologies\": [\n    {\n      \"name\": \"technology-name\",\n      \"category\": \"language|framework|database|testing|styling|devops|async|web\",\n      \"confidence\": \"high|medium|low\",\n      \"evidence\": [\"reason1\", \"reason2\"]\n    }\n  ]\n}\n```\n\nInclude both what I already found (confirmed) and any new discoveries. Use lowercase names.",
    );
    r
}

/// The prompt of the deep dive into one technology: the project, the
/// technology with its evidence, the skill catalog, and the JSON shape to
/// answer with.
pub fn deep_dive_prompt(root: &str, tech: &DetectedTech, catalog: &str) -> (r: String)
    ensures
        r@ == "I'm analyzing a project at "@ + root@ + " that uses "@ + tech.name@ + " ("@
            + tech.category@ + ").\nEvidence: "@ + join(
            tech.evidence@.map_values(|e: String| e@),
            ", "@,
        ) + "\n\nHere are the available forja skills:\n"@ + catalog@
            + "\n\nWhich of these skills would be most useful for this project's "@ + tech.name@
            + " usage?\nConsider the project's specific patterns and needs.\n\nOutput ONLY a JSON block:\n```json\n{\n  \"technology\": \""@
            + tech.name@
            + "\",\n  \"recommended_skills\": [\n    {\n      \"skill_id\": \"phase/tech/name\",\n      \"confidence\": \"high|medium|low\",\n      \"reason\": \"Brief explanation of why this skill is relevant\"\n    }\n  ]\n}\n```\n\nOnly recommend skills that genuinely match. Prefer fewer, high-confidence recommendations."@,
{
    let ev = as_strs(&tech.evidence);
    let mut r = owned("I'm analyzing a project at ");
    push_str(&mut r, root);
    push_str(&mut r, " that uses ");
    push_str(&mut r, tech.name.as_str());
    push_str(&mut r, " (");
    push_str(&mut r, tech.category.as_str());
    push_str(&mut r, ").\nEvidence: ");
    push_str(&mut r, join_strs(&ev, ", ").as_str());
    push_str(&mut r, "\n\nHere are the available forja skills:\n");
    push_str(&mut r, catalog);
    push_str(&mut r, "\n\nWhich of these skills would be most useful for this project's ");
    push_str(&mut r, tech.name.as_str());
    push_str(
        &mut r,
        " usage?\nConsider the project's specific patterns and needs.\n\nOutput ONLY a JSON block:\n```json\n{\n  \"technology\": \"",
    );
    push_str(&mut r, tech.name.as_str());
    push_str(
        &mut r,
        "\",\n  \"recommended_skills\": [\n    {\n      \"skill_id\": \"phase/tech/name\",\n      \"confidence\": \"high|medium|low\",\n      \"reason\": \"Brief explanation of why this skill is relevant\"\n    }\n  ]\n}\n```\n\nOnly recommend skills that genuinely match. Prefer fewer, high-confidence recommendations.",
    );
    r
}

} // verus!
