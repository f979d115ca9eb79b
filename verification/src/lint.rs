//! Linting of a skill directory: manifest, agent files, README and name.
use vstd::prelude::*;

use crate::json::{json_error, json_parse_error, json_pointer_str, json_str_at};
use crate::models::lint::{count_level, LintIssue, LintLevel, LintResult};
use crate::seqs::{flat_map, lemma_flat_map_full, lemma_flat_map_take};
use crate::frontmatter::lemma_find_shift;
use crate::text::{
    chars_of, concat2, concat3, contains, find_chars, matches_at, owned, starts_with,
};

verus! {

/// What linting reads from a skill directory.
#[derive(Debug, Clone)]
pub struct SkillFiles {
    /// The manifest (`skill.json`, else the legacy plugin manifest):
    /// `None` when neither exists, `Some(None)` when it cannot be read,
    /// otherwise its content.
    pub manifest: Option<Option<String>>,
    /// File name and content of each readable `.md` file in `agents/`.
    pub agent_files: Vec<(String, String)>,
    /// Whether `README.md` exists.
    pub has_readme: bool,
}

/// An issue as plain values: level, rule, message.
pub open spec fn issue_view(i: LintIssue) -> (LintLevel, Seq<char>, Seq<char>) {
    (i.level, i.rule@, i.message@)
}

/// The plain values of a list of issues.
pub open spec fn issues_view(v: Seq<LintIssue>) -> Seq<(LintLevel, Seq<char>, Seq<char>)> {
    v.map_values(|i: LintIssue| issue_view(i))
}

/// One issue.
pub open spec fn issue(level: LintLevel, rule: Seq<char>, message: Seq<char>) -> Seq<
    (LintLevel, Seq<char>, Seq<char>),
> {
    seq![(level, rule, message)]
}

/// No issue.
pub open spec fn no_issue() -> Seq<(LintLevel, Seq<char>, Seq<char>)> {
    Seq::empty()
}

/// An error unless the looked-up field is present and a non-empty string.
pub open spec fn field_value_issue(
    value: Option<Seq<char>>,
    rule: Seq<char>,
    message: Seq<char>,
) -> Seq<(LintLevel, Seq<char>, Seq<char>)> {
    match value {
        Some(v) => if v.len() == 0 {
            issue(LintLevel::Error, rule, message)
        } else {
            no_issue()
        },
        None => issue(LintLevel::Error, rule, message),
    }
}

/// An error unless the manifest's field at `pointer` is a non-empty string.
pub open spec fn manifest_field_issue(
    text: Seq<char>,
    pointer: Seq<char>,
    rule: Seq<char>,
    message: Seq<char>,
) -> Seq<(LintLevel, Seq<char>, Seq<char>)> {
    field_value_issue(json_pointer_str(text, pointer), rule, message)
}

/// Issues with the manifest: missing, unreadable, not JSON, or without a
/// non-empty `name` and `description`.
pub open spec fn manifest_issues(manifest: Option<Option<String>>) -> Seq<
    (LintLevel, Seq<char>, Seq<char>),
> {
    match manifest {
        None => issue(
            LintLevel::Error,
            "manifest-missing"@,
            "No manifest found. Expected skill.json or a plugin manifest (plugin.json)"@,
        ),
        Some(None) => issue(
            LintLevel::Error,
            "manifest-unreadable"@,
            "Could not read manifest file"@,
        ),
        Some(Some(text)) => match json_parse_error(text@) {
            Some(e) => issue(
                LintLevel::Error,
                "manifest-invalid-json"@,
                "Malformed JSON: "@ + e,
            ),
            None => manifest_field_issue(
                text@,
                "/name"@,
                "manifest-name-missing"@,
                "Missing or empty 'name' field in manifest"@,
            ) + manifest_field_issue(
                text@,
                "/description"@,
                "manifest-description-missing"@,
                "Missing or empty 'description' field in manifest"@,
            ),
        },
    }
}

/// An error for an agent file that opens a YAML frontmatter with `---` and
/// never closes it.
pub open spec fn agent_issue(name: Seq<char>, content: Seq<char>) -> Seq<
    (LintLevel, Seq<char>, Seq<char>),
> {
    if starts_with(content, "---"@) && !contains(content.skip(3), "---"@) {
        issue(
            LintLevel::Error,
            "agent-frontmatter-unclosed"@,
            "Unclosed YAML frontmatter in "@ + name,
        )
    } else {
        no_issue()
    }
}

/// A warning when there is no README.
pub open spec fn readme_issues(has_readme: bool) -> Seq<(LintLevel, Seq<char>, Seq<char>)> {
    if has_readme {
        no_issue()
    } else {
        issue(LintLevel::Warning, "readme-missing"@, "No README.md found"@)
    }
}

/// A character allowed in kebab-case: a lowercase ASCII letter, a digit or `-`.
pub open spec fn is_kebab_char(c: char) -> bool {
    ('a' <= c && c <= 'z') || ('0' <= c && c <= '9') || c == '-'
}

/// `s` is kebab-case: non-empty, only lowercase ASCII letters, digits and
/// dashes, no dash at either end and no two dashes in a row.
pub open spec fn kebab_case(s: Seq<char>) -> bool {
    &&& s.len() > 0
    &&& forall|i: int| 0 <= i < s.len() ==> is_kebab_char(#[trigger] s[i])
    &&& s[0] != '-'
    &&& s[s.len() - 1] != '-'
    &&& !contains(s, "--"@)
}

/// The part of `id` after its last `/` (all of it when it has none).
pub open spec fn last_segment(id: Seq<char>) -> Seq<char>
    decreases id.len(),
{
    if id.len() == 0 {
        id
    } else if id.last() == '/' {
        Seq::empty()
    } else {
        last_segment(id.drop_last()).push(id.last())
    }
}

/// A warning when the skill's name (the last segment of its id) is not
/// kebab-case.
pub open spec fn name_issues(skill_id: Seq<char>) -> Seq<(LintLevel, Seq<char>, Seq<char>)> {
    let name = last_segment(skill_id);
    if kebab_case(name) {
        no_issue()
    } else {
        issue(
            LintLevel::Warning,
            "name-not-kebab-case"@,
            "Skill name '"@ + name + "' is not kebab-case"@,
        )
    }
}

/// All issues of a skill, in the order the checks run.
pub open spec fn skill_issues(skill_id: Seq<char>, files: SkillFiles) -> Seq<
    (LintLevel, Seq<char>, Seq<char>),
> {
    manifest_issues(files.manifest) + flat_map(
        files.agent_files@,
        |f: (String, String)| agent_issue(f.0@, f.1@),
    ) + readme_issues(files.has_readme) + name_issues(skill_id)
}

/// Whether `s` is kebab-case.
pub fn is_kebab_case(s: &str) -> (r: bool)
    ensures
        r == kebab_case(s@),
{
    let cs = chars_of(s);
    let n = cs.len();
    if n == 0 {
        return false;
    }
    let mut i: usize = 0;
    while i < n
        invariant
            n == cs.len(),
            cs@ == s@,
            i <= n,
            forall|k: int| 0 <= k < i ==> is_kebab_char(#[trigger] s@[k]),
        decreases n - i,
    {
        let c = cs[i];
        if !(('a' <= c && c <= 'z') || ('0' <= c && c <= '9') || c == '-') {
            assert(!is_kebab_char(s@[i as int]));
            return false;
        }
        i = i + 1;
    }
    if cs[0] == '-' || cs[n - 1] == '-' {
        return false;
    }
    let dd = chars_of("--");
    find_chars(&cs, &dd, 0).is_none()
}

/// Whether `content` opens a frontmatter with `---` and never closes it.
fn has_unclosed_frontmatter(content: &str) -> (r: bool)
    ensures
        r == (starts_with(content@, "---"@) && !contains(content@.skip(3), "---"@)),
{
    let cs = chars_of(content);
    let dashes = chars_of("---");
    if !matches_at(&cs, &dashes, 0) {
        return false;
    }
    proof {
        reveal_strlit("---");
        lemma_find_shift(content@, "---"@, 3);
    }
    find_chars(&cs, &dashes, 3).is_none()
}

fn push_issue(issues: &mut Vec<LintIssue>, level: LintLevel, rule: &str, message: String)
    ensures
        issues_view(final(issues)@) == issues_view(old(issues)@) + issue(level, rule@, message@),
{
    let ghost before = issues@;
    let i = LintIssue { level, rule: owned(rule), message };
    issues.push(i);
    assert(issues_view(issues@) =~= issues_view(before) + issue(level, rule@, message@));
}

/// Report `rule` with `message` unless `value`, a manifest field as it was
/// looked up, is present and a non-empty string.
pub fn check_field_value(issues: &mut Vec<LintIssue>, value: Option<String>, rule: &str, message: &str)
    ensures
        issues_view(final(issues)@) == issues_view(old(issues)@) + field_value_issue(
            match value {
                Some(v) => Some(v@),
                None => None,
            },
            rule@,
            message@,
        ),
{
    let present = match &value {
        Some(v) => !v.as_str().is_empty(),
        None => false,
    };
    if present {
        assert(issues_view(issues@) =~= issues_view(issues@) + no_issue());
    } else {
        push_issue(issues, LintLevel::Error, rule, owned(message));
    }
}

fn push_field_issue(issues: &mut Vec<LintIssue>, text: &str, pointer: &str, rule: &str, message: &str)
    ensures
        issues_view(final(issues)@) == issues_view(old(issues)@) + manifest_field_issue(
            text@,
            pointer@,
            rule@,
            message@,
        ),
{
    let value = json_str_at(text, pointer);
    check_field_value(issues, value, rule, message);
}

/// Check the manifest: it must exist, be readable, be JSON, and hold a
/// non-empty `name` and `description`.
pub fn check_manifest(manifest: &Option<Option<String>>, issues: &mut Vec<LintIssue>)
    ensures
        issues_view(final(issues)@) == issues_view(old(issues)@) + manifest_issues(*manifest),
{
    match manifest {
        None => {
            push_issue(
                issues,
                LintLevel::Error,
                "manifest-missing",
                owned("No manifest found. Expected skill.json or a plugin manifest (plugin.json)"),
            );
        },
        Some(None) => {
            push_issue(
                issues,
                LintLevel::Error,
                "manifest-unreadable",
                owned("Could not read manifest file"),
            );
        },
        Some(Some(text)) => {
            match json_error(text.as_str()) {
                Some(e) => {
                    push_issue(
                        issues,
                        LintLevel::Error,
                        "manifest-invalid-json",
                        concat2("Malformed JSON: ", e.as_str()),
                    );
                },
                None => {
                    let ghost before = issues_view(issues@);
                    push_field_issue(
                        issues,
                        text.as_str(),
                        "/name",
                        "manifest-name-missing",
                        "Missing or empty 'name' field in manifest",
                    );
                    push_field_issue(
                        issues,
                        text.as_str(),
                        "/description",
                        "manifest-description-missing",
                        "Missing or empty 'description' field in manifest",
                    );
                    assert(issues_view(issues@) =~= before + manifest_issues(*manifest));
                },
            }
        },
    }
}

/// Check each agent file for a frontmatter that is opened and never closed.
pub fn check_agents(agent_files: &Vec<(String, String)>, issues: &mut Vec<LintIssue>)
    ensures
        issues_view(final(issues)@) == issues_view(old(issues)@) + flat_map(
            agent_files@,
            |f: (String, String)| agent_issue(f.0@, f.1@),
        ),
{
    let ghost f = |f: (String, String)| agent_issue(f.0@, f.1@);
    let ghost i0 = issues_view(issues@);
    let mut i: usize = 0;
    while i < agent_files.len()
        invariant
            i <= agent_files.len(),
            f == (|f: (String, String)| agent_issue(f.0@, f.1@)),
            issues_view(issues@) == i0 + flat_map(agent_files@.take(i as int), f),
        decreases agent_files.len() - i,
    {
        proof {
            lemma_flat_map_take(agent_files@, f, i as int);
        }
        let (name, content) = &agent_files[i];
        if has_unclosed_frontmatter(content.as_str()) {
            push_issue(
                issues,
                LintLevel::Error,
                "agent-frontmatter-unclosed",
                concat2("Unclosed YAML frontmatter in ", name.as_str()),
            );
        } else {
            assert(issues_view(issues@) =~= issues_view(issues@) + no_issue());
        }
        i = i + 1;
    }
    proof {
        lemma_flat_map_full(agent_files@, f);
    }
}

/// Warn when the skill has no README.
pub fn check_readme(has_readme: bool, issues: &mut Vec<LintIssue>)
    ensures
        issues_view(final(issues)@) == issues_view(old(issues)@) + readme_issues(has_readme),
{
    if !has_readme {
        push_issue(issues, LintLevel::Warning, "readme-missing", owned("No README.md found"));
    } else {
        assert(issues_view(issues@) =~= issues_view(issues@) + no_issue());
    }
}

/// The part of `id` after its last `/`.
pub fn skill_name(id: &str) -> (r: &str)
    ensures
        r@ == last_segment(id@),
{
    let cs = chars_of(id);
    let n = cs.len();
    let mut i: usize = n;
    assert(id@.take(n as int) =~= id@);
    assert(id@.skip(n as int) =~= Seq::<char>::empty());
    while i > 0 && cs[i - 1] != '/'
        invariant
            n == cs.len(),
            cs@ == id@,
            i <= n,
            last_segment(id@) == last_segment(id@.take(i as int)) + id@.skip(i as int),
        decreases i,
    {
        assert(id@.take(i as int).drop_last() =~= id@.take(i - 1));
        assert(id@.skip(i - 1) =~= seq![id@[i - 1]] + id@.skip(i as int));
        assert(last_segment(id@.take(i as int)) == last_segment(id@.take(i - 1)).push(id@[i - 1]));
        assert(last_segment(id@.take(i - 1)).push(id@[i - 1]) + id@.skip(i as int)
            =~= last_segment(id@.take(i - 1)) + id@.skip(i - 1));
        i = i - 1;
    }
    if i > 0 {
        assert(last_segment(id@.take(i as int)) =~= Seq::<char>::empty());
    } else {
        assert(last_segment(id@.take(0)) =~= Seq::<char>::empty());
    }
    assert(last_segment(id@) =~= id@.skip(i as int));
    assert(id@.subrange(i as int, n as int) =~= id@.skip(i as int));
    id.substring_char(i, n)
}

/// Warn when the skill's name (the last segment of its id) is not kebab-case.
pub fn check_name_convention(skill_id: &str, issues: &mut Vec<LintIssue>)
    ensures
        issues_view(final(issues)@) == issues_view(old(issues)@) + name_issues(skill_id@),
{
    let name = skill_name(skill_id);
    if !is_kebab_case(name) {
        push_issue(
            issues,
            LintLevel::Warning,
            "name-not-kebab-case",
            concat3("Skill name '", name, "' is not kebab-case"),
        );
    } else {
        assert(issues_view(issues@) =~= issues_view(issues@) + no_issue());
    }
}

/// Lint a single skill directory and return all issues found: manifest,
/// agents, README, then the name convention.
pub fn lint_skill(skill_path: &str, skill_id: &str, files: &SkillFiles) -> (r: LintResult)
    ensures
        r.skill_path@ == skill_path@,
        r.skill_id@ == skill_id@,
        issues_view(r.issues@) == skill_issues(skill_id@, *files),
{
    let mut issues: Vec<LintIssue> = Vec::new();
    assert(issues_view(issues@) =~= Seq::empty());
    check_manifest(&files.manifest, &mut issues);
    check_agents(&files.agent_files, &mut issues);
    check_readme(files.has_readme, &mut issues);
    check_name_convention(skill_id, &mut issues);
    LintResult { skill_path: owned(skill_path), skill_id: owned(skill_id), issues }
}

proof fn lemma_clean_agents(files: Seq<(String, String)>)
    requires
        forall|k: int| 0 <= k < files.len() ==> agent_issue((#[trigger] files[k]).0@, files[k].1@).len() == 0,
    ensures
        flat_map(files, |f: (String, String)| agent_issue(f.0@, f.1@)).len() == 0,
    decreases files.len(),
{
    if files.len() > 0 {
        let pre = files.drop_last();
        assert forall|k: int| 0 <= k < pre.len() implies agent_issue((#[trigger] pre[k]).0@, pre[k].1@).len()
            == 0 by {
            assert(pre[k] == files[k]);
        }
        lemma_clean_agents(pre);
        assert(files.last() == files[files.len() - 1]);
    }
}

/// A missing README is only a warning. A skill whose manifest has no issue,
/// whose agent files have none, and whose name is kebab-case, but which has
/// no README, gets exactly one issue: the warning `readme-missing`. Its lint
/// result has no errors and one warning.
pub proof fn lemma_missing_readme_only_warns(skill_id: Seq<char>, files: SkillFiles, result: LintResult)
    requires
        manifest_issues(files.manifest).len() == 0,
        forall|k: int|
            0 <= k < files.agent_files@.len() ==> agent_issue(
                (#[trigger] files.agent_files@[k]).0@,
                files.agent_files@[k].1@,
            ).len() == 0,
        kebab_case(last_segment(skill_id)),
        !files.has_readme,
        issues_view(result.issues@) == skill_issues(skill_id, files),
    ensures
        skill_issues(skill_id, files) == seq![
            (LintLevel::Warning, "readme-missing"@, "No README.md found"@),
        ],
        count_level(result.issues@, LintLevel::Error) == 0,
        count_level(result.issues@, LintLevel::Warning) == 1,
{
    lemma_clean_agents(files.agent_files@);
    let all = skill_issues(skill_id, files);
    assert(all =~= seq![(LintLevel::Warning, "readme-missing"@, "No README.md found"@)]);
    let v = result.issues@;
    assert(v.len() == 1);
    assert(issue_view(v[0]) == all[0]);
    assert(v.drop_last() =~= Seq::<LintIssue>::empty());
    assert(v.last() == v[0]);
    assert(v[0].level == LintLevel::Warning);
    assert(count_level(v.drop_last(), LintLevel::Error) == 0);
    assert(count_level(v.drop_last(), LintLevel::Warning) == 0);
}

} // verus!
