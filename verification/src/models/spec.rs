//! Feature specs: frontmatter, acceptance criteria and task descriptions.
use vstd::prelude::*;

use crate::error::ForjaError;
use crate::models::acceptance::{criterion_description, criterion_view, AcceptanceCriterion};
use crate::sorting::{
    lemma_stable_sort_unique,
    char_codes, first_index, is_stable_sort, stable_sort_by_key, str_sort_key, take_first, Keyed,
    SortKey,
};
use crate::text::{concat2, owned, push_str};

verus! {

/// Lifecycle status of a spec (the last four are legacy statuses).
#[derive(Debug, Clone, Copy, PartialEq, Eq)]
pub enum SpecStatus {
    Draft,
    Ready,
    InProgress,
    Review,
    Done,
    Blocked,
    Planning,
    Executing,
    Complete,
    Failed,
}

/// The kebab-case name of a spec status.
pub open spec fn spec_status_name(s: SpecStatus) -> Seq<char> {
    match s {
        SpecStatus::Draft => "draft"@,
        SpecStatus::Ready => "ready"@,
        SpecStatus::InProgress => "in-progress"@,
        SpecStatus::Review => "review"@,
        SpecStatus::Done => "done"@,
        SpecStatus::Blocked => "blocked"@,
        SpecStatus::Planning => "planning"@,
        SpecStatus::Executing => "executing"@,
        SpecStatus::Complete => "complete"@,
        SpecStatus::Failed => "failed"@,
    }
}

impl SpecStatus {
    /// The status's kebab-case name.
    pub fn as_str(&self) -> (r: &'static str)
        ensures
            r@ == spec_status_name(*self),
    {
        match self {
            SpecStatus::Draft => "draft",
            SpecStatus::Ready => "ready",
            SpecStatus::InProgress => "in-progress",
            SpecStatus::Review => "review",
            SpecStatus::Done => "done",
            SpecStatus::Blocked => "blocked",
            SpecStatus::Planning => "planning",
            SpecStatus::Executing => "executing",
            SpecStatus::Complete => "complete",
            SpecStatus::Failed => "failed",
        }
    }
}

impl Default for SpecStatus {
    fn default() -> (r: SpecStatus)
        ensures
            r == SpecStatus::Draft,
    {
        SpecStatus::Draft
    }
}

/// The YAML frontmatter of a spec file.
#[derive(Debug, Clone)]
pub struct SpecFrontmatter {
    pub id: String,
    pub title: String,
    pub description: String,
    pub status: Option<SpecStatus>,
    pub priority: Option<String>,
    pub track: Option<String>,
    pub assignee: Option<String>,
    pub tags: Vec<String>,
    pub blocked_by: Vec<String>,
    pub depends_on: Vec<String>,
    pub requirements: Vec<String>,
    pub constraints: Vec<String>,
    pub acceptance_criteria: Vec<AcceptanceCriterion>,
    pub success_criteria: Vec<String>,
    pub created: Option<String>,
    pub updated: Option<String>,
}

/// A parsed spec file; `status` is the effective status.
#[derive(Debug, Clone)]
pub struct SpecFile {
    pub frontmatter: SpecFrontmatter,
    pub body: String,
    pub status: SpecStatus,
}

/// The descriptions of the criteria, in order.
pub open spec fn descriptions(cs: Seq<AcceptanceCriterion>) -> Seq<Seq<char>> {
    cs.map_values(|c: AcceptanceCriterion| criterion_description(c))
}

/// The views of a sequence of strings.
pub open spec fn string_views(v: Seq<String>) -> Seq<Seq<char>> {
    v.map_values(|s: String| s@)
}

/// The success-criterion texts of a spec: the descriptions of its acceptance
/// criteria when it has any, otherwise its legacy success criteria.
pub open spec fn criteria_texts(fm: SpecFrontmatter) -> Seq<Seq<char>> {
    if fm.acceptance_criteria@.len() > 0 {
        descriptions(fm.acceptance_criteria@)
    } else {
        string_views(fm.success_criteria@)
    }
}

/// Every acceptance criterion of a spec as plain values: the structured ones
/// when present, otherwise a simple criterion (no test command) for each
/// legacy success criterion.
pub open spec fn merged_criteria(fm: SpecFrontmatter) -> Seq<(bool, Seq<char>, Option<Seq<char>>)> {
    if fm.acceptance_criteria@.len() > 0 {
        fm.acceptance_criteria@.map_values(|c: AcceptanceCriterion| criterion_view(c))
    } else {
        fm.success_criteria@.map_values(|s: String| (true, s@, None::<Seq<char>>))
    }
}

impl SpecFile {
    /// The spec's id.
    pub fn id(&self) -> (r: &str)
        ensures
            r@ == self.frontmatter.id@,
    {
        self.frontmatter.id.as_str()
    }

    /// The spec's title.
    pub fn title(&self) -> (r: &str)
        ensures
            r@ == self.frontmatter.title@,
    {
        self.frontmatter.title.as_str()
    }

    /// All acceptance criteria: the structured ones when the spec has any,
    /// otherwise one simple criterion per legacy success criterion.
    pub fn all_acceptance_criteria(&self) -> (r: Vec<AcceptanceCriterion>)
        ensures
            r@.len() == merged_criteria(self.frontmatter).len(),
            forall|i: int|
                0 <= i < r@.len() ==> criterion_view(#[trigger] r@[i]) == merged_criteria(
                    self.frontmatter,
                )[i],
    {
        let mut r: Vec<AcceptanceCriterion> = Vec::new();
        let fm = &self.frontmatter;
        if fm.acceptance_criteria.len() > 0 {
            let mut i: usize = 0;
            while i < fm.acceptance_criteria.len()
                invariant
                    fm.acceptance_criteria@.len() > 0,
                    i <= fm.acceptance_criteria.len(),
                    r@.len() == i,
                    forall|k: int|
                        0 <= k < i ==> criterion_view(#[trigger] r@[k]) == merged_criteria(*fm)[k],
                decreases fm.acceptance_criteria.len() - i,
            {
                r.push(fm.acceptance_criteria[i].copied());
                i = i + 1;
            }
        } else {
            let mut i: usize = 0;
            while i < fm.success_criteria.len()
                invariant
                    fm.acceptance_criteria@.len() == 0,
                    i <= fm.success_criteria.len(),
                    r@.len() == i,
                    forall|k: int|
                        0 <= k < i ==> criterion_view(#[trigger] r@[k]) == merged_criteria(*fm)[k],
                decreases fm.success_criteria.len() - i,
            {
                r.push(AcceptanceCriterion::Simple(owned(fm.success_criteria[i].as_str())));
                i = i + 1;
            }
        }
        r
    }

    /// The success-criterion texts: acceptance criteria descriptions when
    /// present, otherwise the legacy success criteria.
    pub fn success_criteria_strings(&self) -> (r: Vec<&str>)
        ensures
            r@.map_values(|s: &str| s@) == criteria_texts(self.frontmatter),
    {
        let mut r: Vec<&str> = Vec::new();
        if self.frontmatter.acceptance_criteria.len() > 0 {
            let mut i: usize = 0;
            while i < self.frontmatter.acceptance_criteria.len()
                invariant
                    i <= self.frontmatter.acceptance_criteria.len(),
                    r@.map_values(|s: &str| s@) == descriptions(
                        self.frontmatter.acceptance_criteria@,
                    ).take(i as int),
                decreases self.frontmatter.acceptance_criteria.len() - i,
            {
                let d = self.frontmatter.acceptance_criteria[i].description();
                let ghost prev = r@;
                r.push(d);
                assert(r@ == prev.push(d));
                assert(r@.map_values(|s: &str| s@) =~= prev.map_values(|s: &str| s@).push(d@));
                i = i + 1;
                assert(r@.map_values(|s: &str| s@) =~= descriptions(
                    self.frontmatter.acceptance_criteria@,
                ).take(i as int));
            }
            assert(descriptions(self.frontmatter.acceptance_criteria@).take(i as int)
                =~= descriptions(self.frontmatter.acceptance_criteria@));
        } else {
            let mut i: usize = 0;
            while i < self.frontmatter.success_criteria.len()
                invariant
                    i <= self.frontmatter.success_criteria.len(),
                    r@.map_values(|s: &str| s@) == string_views(
                        self.frontmatter.success_criteria@,
                    ).take(i as int),
                decreases self.frontmatter.success_criteria.len() - i,
            {
                let d = self.frontmatter.success_criteria[i].as_str();
                let ghost prev = r@;
                r.push(d);
                assert(r@ == prev.push(d));
                assert(r@.map_values(|s: &str| s@) =~= prev.map_values(|s: &str| s@).push(d@));
                i = i + 1;
                assert(r@.map_values(|s: &str| s@) =~= string_views(
                    self.frontmatter.success_criteria@,
                ).take(i as int));
            }
            assert(string_views(self.frontmatter.success_criteria@).take(i as int)
                =~= string_views(self.frontmatter.success_criteria@));
        }
        r
    }
}

/// A spec's frontmatter after its status changed on `today` (`YYYY-MM-DD`):
/// the new status, `today` as the update date, everything else kept.
pub fn set_status(fm: &mut SpecFrontmatter, status: SpecStatus, today: String)
    ensures
        *final(fm) == (SpecFrontmatter { status: Some(status), updated: Some(today), ..*old(fm) }),
{
    fm.status = Some(status);
    fm.updated = Some(today);
}

/// A spec file built from its parsed frontmatter and body; its effective
/// status is the frontmatter's, or `Draft` when the frontmatter has none.
pub fn spec_from_parts(frontmatter: SpecFrontmatter, body: &str) -> (s: SpecFile)
    ensures
        s.frontmatter == frontmatter,
        s.body@ == body@,
        s.status == match frontmatter.status {
            Some(st) => st,
            None => SpecStatus::Draft,
        },
{
    let status = match frontmatter.status {
        Some(st) => st,
        None => SpecStatus::Draft,
    };
    SpecFile { frontmatter, body: owned(body), status }
}

/// Lines `- <item>` for each item.
pub open spec fn bullets(items: Seq<Seq<char>>) -> Seq<char>
    decreases items.len(),
{
    if items.len() == 0 {
        Seq::empty()
    } else {
        bullets(items.drop_last()) + "- "@ + items.last() + "\n"@
    }
}

/// A titled bullet section, or nothing when there are no items.
pub open spec fn section(heading: Seq<char>, items: Seq<Seq<char>>) -> Seq<char> {
    if items.len() == 0 {
        Seq::empty()
    } else {
        "\n"@ + heading + ":\n"@ + bullets(items)
    }
}

/// The task description built from a spec.
pub open spec fn task_description(s: SpecFile) -> Seq<char> {
    let fm = s.frontmatter;
    fm.title@ + "\n\n"@ + fm.description@ + "\n"@ + match fm.priority {
        Some(p) => "\nPriority: "@ + p@ + "\n"@,
        None => Seq::empty(),
    } + section("Requirements"@, string_views(fm.requirements@)) + section(
        "Constraints"@,
        string_views(fm.constraints@),
    ) + section("Acceptance Criteria"@, criteria_texts(fm)) + section(
        "Depends On"@,
        string_views(fm.depends_on@),
    ) + if s.body@.len() == 0 {
        Seq::<char>::empty()
    } else {
        "\nContext:\n"@ + s.body@ + "\n"@
    }
}

fn push_bullets_strings(out: &mut String, items: &Vec<String>)
    ensures
        final(out)@ == old(out)@ + bullets(string_views(items@)),
{
    let mut i: usize = 0;
    while i < items.len()
        invariant
            i <= items.len(),
            out@ == old(out)@ + bullets(string_views(items@).take(i as int)),
        decreases items.len() - i,
    {
        assert(string_views(items@).take(i + 1).drop_last() =~= string_views(items@).take(
            i as int,
        ));
        push_str(out, "- ");
        push_str(out, items[i].as_str());
        push_str(out, "\n");
        i = i + 1;
        assert(out@ =~= old(out)@ + bullets(string_views(items@).take(i as int)));
    }
    assert(string_views(items@).take(i as int) =~= string_views(items@));
}

fn push_bullets_strs(out: &mut String, items: &Vec<&str>)
    ensures
        final(out)@ == old(out)@ + bullets(items@.map_values(|s: &str| s@)),
{
    let ghost vs = items@.map_values(|s: &str| s@);
    let mut i: usize = 0;
    while i < items.len()
        invariant
            i <= items.len(),
            vs == items@.map_values(|s: &str| s@),
            out@ == old(out)@ + bullets(vs.take(i as int)),
        decreases items.len() - i,
    {
        assert(vs.take(i + 1).drop_last() =~= vs.take(i as int));
        push_str(out, "- ");
        push_str(out, items[i]);
        push_str(out, "\n");
        i = i + 1;
        assert(out@ =~= old(out)@ + bullets(vs.take(i as int)));
    }
    assert(vs.take(i as int) =~= vs);
}

fn push_section(out: &mut String, heading: &str, items: &Vec<String>)
    ensures
        final(out)@ == old(out)@ + section(heading@, string_views(items@)),
{
    if items.len() > 0 {
        push_str(out, "\n");
        push_str(out, heading);
        push_str(out, ":\n");
        push_bullets_strings(out, items);
    }
}

/// Build a structured task description from a spec: title, description,
/// priority, requirements, constraints, acceptance criteria, dependencies and
/// the body as context.
pub fn build_task_description(spec: &SpecFile) -> (desc: String)
    ensures
        desc@ == task_description(*spec),
{
    let fm = &spec.frontmatter;
    let mut desc = String::new();
    push_str(&mut desc, fm.title.as_str());
    push_str(&mut desc, "\n\n");
    push_str(&mut desc, fm.description.as_str());
    push_str(&mut desc, "\n");
    let ghost head = desc@;
    assert(head =~= fm.title@ + "\n\n"@ + fm.description@ + "\n"@);
    if let Some(priority) = &fm.priority {
        push_str(&mut desc, "\nPriority: ");
        push_str(&mut desc, priority.as_str());
        push_str(&mut desc, "\n");
    }
    let ghost p1 = desc@;
    assert(p1 =~= head + match fm.priority {
        Some(p) => "\nPriority: "@ + p@ + "\n"@,
        None => Seq::empty(),
    });
    push_section(&mut desc, "Requirements", &fm.requirements);
    push_section(&mut desc, "Constraints", &fm.constraints);
    let ghost p2 = desc@;
    let criteria = spec.success_criteria_strings();
    if criteria.len() > 0 {
        push_str(&mut desc, "\n");
        push_str(&mut desc, "Acceptance Criteria");
        push_str(&mut desc, ":\n");
        push_bullets_strs(&mut desc, &criteria);
        assert(desc@ =~= p2 + section("Acceptance Criteria"@, criteria_texts(*fm)));
    } else {
        assert(desc@ =~= p2 + section("Acceptance Criteria"@, criteria_texts(*fm)));
    }
    push_section(&mut desc, "Depends On", &fm.depends_on);
    let ghost p3 = desc@;
    if spec.body.as_str().is_empty() == false {
        push_str(&mut desc, "\nContext:\n");
        push_str(&mut desc, spec.body.as_str());
        push_str(&mut desc, "\n");
    }
    assert(desc@ =~= p3 + if spec.body@.len() == 0 {
        Seq::<char>::empty()
    } else {
        "\nContext:\n"@ + spec.body@ + "\n"@
    });
    assert(desc@ =~= task_description(*spec));
    desc
}

impl Keyed for SpecFile {
    open spec fn key_of(&self) -> Seq<char> {
        self.frontmatter.id@
    }

    fn key_str(&self) -> (r: &str) {
        self.frontmatter.id.as_str()
    }
}

impl SortKey for SpecFile {
    open spec fn key(&self) -> Seq<int> {
        char_codes(self.frontmatter.id@)
    }

    fn key_exec(&self) -> (k: Vec<u32>) {
        str_sort_key(self.frontmatter.id.as_str())
    }
}

/// What a lookup of `spec_id` among `specs` yields: the first spec with that
/// id, or `SpecNotFound(spec_id)` when there is none.
pub open spec fn spec_lookup(specs: Seq<SpecFile>, spec_id: Seq<char>, r: Result<SpecFile, ForjaError>) -> bool {
    match r {
        Ok(s) => exists|i: int|
            first_index(specs, spec_id, Some(i as usize)) && 0 <= i < specs.len() && specs[i] == s,
        Err(e) => {
            &&& first_index(specs, spec_id, None)
            &&& e matches ForjaError::SpecNotFound(m)
            &&& m@ == spec_id
        },
    }
}

fn find_in(specs: Vec<SpecFile>, spec_id: &str) -> (r: Result<SpecFile, ForjaError>)
    ensures
        spec_lookup(specs@, spec_id@, r),
{
    match take_first(specs, spec_id) {
        Some(s) => Ok(s),
        None => Err(ForjaError::SpecNotFound(owned(spec_id))),
    }
}

/// Find a spec by id among the discovered specs (the first match wins);
/// `SpecNotFound(spec_id)` when none has that id; a discovery error is passed on.
pub fn find_spec(discovered: Result<Vec<SpecFile>, ForjaError>, spec_id: &str) -> (r: Result<
    SpecFile,
    ForjaError,
>)
    ensures
        match discovered {
            Err(e) => r == Err::<SpecFile, ForjaError>(e),
            Ok(specs) => spec_lookup(specs@, spec_id@, r),
        },
{
    match discovered {
        Err(e) => Err(e),
        Ok(specs) => find_in(specs, spec_id),
    }
}

/// Find a spec by id among the specs discovered with the `.forja/specs/` then
/// `docs/specs/` fallback; same rules as `find_spec`.
pub fn find_spec_with_fallback(
    discovered: Result<Vec<SpecFile>, ForjaError>,
    spec_id: &str,
) -> (r: Result<SpecFile, ForjaError>)
    ensures
        match discovered {
            Err(e) => r == Err::<SpecFile, ForjaError>(e),
            Ok(specs) => spec_lookup(specs@, spec_id@, r),
        },
{
    match discovered {
        Err(e) => Err(e),
        Ok(specs) => find_in(specs, spec_id),
    }
}

/// Discovering specs with the `.forja/specs/` then `docs/specs/` fallback
/// gives the same specs, in the same order, as discovering them in the
/// directory the fallback chose: both are the stable sort by id of the
/// specs parsed there, and that sort is unique.
pub proof fn lemma_fallback_discovery_matches_discover_specs(
    chosen: Seq<SpecFile>,
    via_fallback: Seq<SpecFile>,
    direct: Seq<SpecFile>,
)
    requires
        is_stable_sort(chosen, via_fallback),
        is_stable_sort(chosen, direct),
    ensures
        via_fallback == direct,
{
    lemma_stable_sort_unique(chosen, via_fallback, direct);
}

/// Finding a spec with the `.forja/specs/` then `docs/specs/` fallback gives
/// what `find_spec` gives on the directory the fallback chose: the two
/// lookups search the same sorted specs, so they allow the same results.
pub proof fn lemma_fallback_find_matches_find_spec(
    chosen: Seq<SpecFile>,
    via_fallback: Seq<SpecFile>,
    direct: Seq<SpecFile>,
    spec_id: Seq<char>,
    r: Result<SpecFile, ForjaError>,
)
    requires
        is_stable_sort(chosen, via_fallback),
        is_stable_sort(chosen, direct),
    ensures
        spec_lookup(via_fallback, spec_id, r) <==> spec_lookup(direct, spec_id, r),
{
    lemma_stable_sort_unique(chosen, via_fallback, direct);
}

/// The specs of a directory, sorted by id: `parsed` holds the specs parsed
/// from its `.md` files (files that fail to parse are left out), or is `None`
/// when the directory does not exist, which is an error.
pub fn discover_specs(dir: &str, parsed: Option<Vec<SpecFile>>) -> (r: Result<
    Vec<SpecFile>,
    ForjaError,
>)
    ensures
        match parsed {
            None => r is Err && r->Err_0 is SpecNotFound && r->Err_0->SpecNotFound_0@
                == "specs directory not found: "@ + dir@,
            Some(found) => r is Ok && is_stable_sort(found@, r->Ok_0@),
        },
{
    match parsed {
        None => Err(ForjaError::SpecNotFound(concat2("specs directory not found: ", dir))),
        Some(found) => Ok(stable_sort_by_key(found)),
    }
}

/// Specs from `.forja/specs/` when that directory exists, otherwise from
/// `docs/specs/`; an error when neither exists. Each argument holds the specs
/// parsed from that directory, or `None` when it does not exist.
pub fn discover_specs_with_fallback(
    forja_specs: Option<Vec<SpecFile>>,
    docs_specs: Option<Vec<SpecFile>>,
) -> (r: Result<Vec<SpecFile>, ForjaError>)
    ensures
        match (forja_specs, docs_specs) {
            (Some(found), _) => r is Ok && is_stable_sort(found@, r->Ok_0@),
            (None, Some(found)) => r is Ok && is_stable_sort(found@, r->Ok_0@),
            (None, None) => r is Err && r->Err_0 is SpecNotFound
                && r->Err_0->SpecNotFound_0@
                == "no specs directory found (.forja/specs/ or docs/specs/)"@,
        },
{
    match forja_specs {
        Some(found) => Ok(stable_sort_by_key(found)),
        None => match docs_specs {
            Some(found) => Ok(stable_sort_by_key(found)),
            None => Err(
                ForjaError::SpecNotFound(
                    owned("no specs directory found (.forja/specs/ or docs/specs/)"),
                ),
            ),
        },
    }
}

} // verus!
