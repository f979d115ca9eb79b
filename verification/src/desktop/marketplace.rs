//! The marketplace commands of the desktop app: installing, creating and
//! inspecting skills.
use vstd::prelude::*;

use crate::json::{json_pretty_object, pretty_object};
use crate::models::skill::{registry_lookup, AgentFile, AgentFrontmatter, Registry, Skill};
use crate::scanner::deterministic::extension;
use crate::seqs::contains_string;
use crate::sorting::{char_codes, is_stable_sort, stable_sort_by_key, str_sort_key, SortKey};
use crate::text::{concat2, owned, push_str, str_eq};

verus! {

/// Where forja keeps the registry and its state.
#[derive(Debug, Clone)]
pub struct ForjaPathsDto {
    pub registry: String,
    pub state: String,
}

/// Installing a skill is refused when it is installed already.
pub fn check_installable(installed_ids: &Vec<String>, skill_id: &str) -> (r: Result<(), String>)
    ensures
        match r {
            Ok(_) => !installed_ids@.map_values(|s: String| s@).contains(skill_id@),
            Err(m) => installed_ids@.map_values(|s: String| s@).contains(skill_id@) && m@
                == "Skill already installed: "@ + skill_id@,
        },
{
    if contains_string(installed_ids, skill_id) {
        Err(concat2("Skill already installed: ", skill_id))
    } else {
        Ok(())
    }
}

/// Uninstalling a skill is refused when it is not installed.
pub fn check_uninstallable(installed_ids: &Vec<String>, skill_id: &str) -> (r: Result<(), String>)
    ensures
        match r {
            Ok(_) => installed_ids@.map_values(|s: String| s@).contains(skill_id@),
            Err(m) => !installed_ids@.map_values(|s: String| s@).contains(skill_id@) && m@
                == "Skill not installed: "@ + skill_id@,
        },
{
    if contains_string(installed_ids, skill_id) {
        Ok(())
    } else {
        Err(concat2("Skill not installed: ", skill_id))
    }
}

/// The ids other than `skill_id`, in order.
pub open spec fn without(ids: Seq<Seq<char>>, skill_id: Seq<char>) -> Seq<Seq<char>>
    decreases ids.len(),
{
    if ids.len() == 0 {
        Seq::empty()
    } else {
        without(ids.drop_last(), skill_id) + if ids.last() == skill_id {
            Seq::empty()
        } else {
            seq![ids.last()]
        }
    }
}

proof fn lemma_without_absent(ids: Seq<Seq<char>>, skill_id: Seq<char>)
    requires
        !ids.contains(skill_id),
    ensures
        without(ids, skill_id) == ids,
    decreases ids.len(),
{
    if ids.len() > 0 {
        assert(!ids.drop_last().contains(skill_id)) by {
            if ids.drop_last().contains(skill_id) {
                let k = choose|k: int| 0 <= k < ids.drop_last().len() && ids.drop_last()[k] == skill_id;
                assert(ids[k] == skill_id);
            }
        }
        lemma_without_absent(ids.drop_last(), skill_id);
        assert(ids.last() == ids[ids.len() - 1]);
        assert(ids.drop_last().push(ids.last()) =~= ids);
    }
}

/// Uninstalling removes the skill from the installed ids, and keeps every
/// other id in its order.
pub proof fn lemma_without_removes(ids: Seq<Seq<char>>, skill_id: Seq<char>)
    ensures
        !without(ids, skill_id).contains(skill_id),
        forall|x: Seq<char>| x != skill_id ==> (#[trigger] without(ids, skill_id).contains(x) <==> ids.contains(x)),
    decreases ids.len(),
{
    if ids.len() > 0 {
        let pre = ids.drop_last();
        lemma_without_removes(pre, skill_id);
        let w = without(pre, skill_id);
        let tail = if ids.last() == skill_id { Seq::<Seq<char>>::empty() } else { seq![ids.last()] };
        assert(without(ids, skill_id) == w + tail);
        assert forall|x: Seq<char>| x != skill_id implies (#[trigger] without(ids, skill_id).contains(x) <==> ids.contains(x)) by {
            if ids.contains(x) {
                let k = choose|k: int| 0 <= k < ids.len() && ids[k] == x;
                if k < ids.len() - 1 {
                    assert(pre[k] == x);
                    assert(pre.contains(x));
                    assert(without(pre, skill_id).contains(x));
                    let j = choose|j: int| 0 <= j < w.len() && w[j] == x;
                    assert((w + tail)[j] == x);
                } else {
                    assert((w + tail)[w.len() as int] == x);
                }
            }
            if (w + tail).contains(x) {
                let j = choose|j: int| 0 <= j < (w + tail).len() && (w + tail)[j] == x;
                if j < w.len() {
                    assert(w[j] == x);
                    assert(without(pre, skill_id).contains(x));
                    assert(pre.contains(x));
                    let k = choose|k: int| 0 <= k < pre.len() && pre[k] == x;
                    assert(ids[k] == x);
                } else {
                    assert(ids[ids.len() - 1] == x);
                }
            }
        }
        if (w + tail).contains(skill_id) {
            let j = choose|j: int| 0 <= j < (w + tail).len() && (w + tail)[j] == skill_id;
            if j < w.len() {
                assert(w[j] == skill_id);
                assert(w.contains(skill_id));
            }
        }
    } else {
        assert(without(ids, skill_id) =~= Seq::<Seq<char>>::empty());
    }
}

/// Installing a skill that is not installed and then uninstalling it gives
/// back the installed ids as they were.
pub proof fn lemma_install_uninstall(ids: Seq<Seq<char>>, skill_id: Seq<char>)
    requires
        !ids.contains(skill_id),
    ensures
        without(ids.push(skill_id), skill_id) == ids,
{
    assert(ids.push(skill_id).drop_last() =~= ids);
    lemma_without_absent(ids, skill_id);
    assert(without(ids, skill_id) + Seq::<Seq<char>>::empty() =~= ids);
}

/// The installed ids after uninstalling `skill_id`: every copy of it removed.
pub fn remove_installed(installed_ids: Vec<String>, skill_id: &str) -> (r: Vec<String>)
    ensures
        r@.map_values(|s: String| s@) == without(installed_ids@.map_values(|s: String| s@), skill_id@),
{
    let ghost v0 = installed_ids@.map_values(|s: String| s@);
    let ghost raw = installed_ids@;
    let mut ids = installed_ids;
    let n = ids.len();
    let mut r: Vec<String> = Vec::new();
    let mut i: usize = 0;
    assert(raw.skip(0) =~= raw);
    while ids.len() > 0
        invariant
            i <= n,
            n == raw.len(),
            v0 == raw.map_values(|s: String| s@),
            ids@ == raw.skip(i as int),
            r@.map_values(|s: String| s@) == without(v0.take(i as int), skill_id@),
        decreases ids.len(),
    {
        assert(ids@.len() == n - i);
        assert(ids@[0] == raw[i as int]);
        let id = ids.remove(0);
        assert(raw.skip(i + 1) =~= raw.skip(i as int).drop_first());
        assert(v0.take(i + 1).drop_last() =~= v0.take(i as int));
        assert(v0.take(i + 1).last() == id@);
        let ghost before = r@;
        if !str_eq(id.as_str(), skill_id) {
            r.push(id);
            assert(r@.map_values(|s: String| s@) =~= before.map_values(|s: String| s@).push(
                v0[i as int],
            ));
        } else {
            assert(r@.map_values(|s: String| s@) =~= before.map_values(|s: String| s@) + Seq::<
                Seq<char>,
            >::empty());
        }
        i = i + 1;
    }
    assert(v0.take(i as int) =~= v0);
    r
}

/// The skill `skill_id` of the registry, or "Skill not found: <id>".
pub fn find_skill<'a>(registry: &'a Registry, skill_id: &str) -> (r: Result<&'a Skill, String>)
    ensures
        match registry_lookup(registry.skills@, skill_id@) {
            Some(s) => r == Ok::<&Skill, String>(&s),
            None => r is Err && r->Err_0@ == "Skill not found: "@ + skill_id@,
        },
{
    match registry.find_by_id(skill_id) {
        Some(s) => Ok(s),
        None => Err(concat2("Skill not found: ", skill_id)),
    }
}

/// The prompt asking the coding agent for the agent file of a new skill.
pub open spec fn agent_prompt(name: Seq<char>, description: Seq<char>, phase: Seq<char>, tech: Seq<char>) -> Seq<
    char,
> {
    "Generate an agent markdown file for a coding agent called '"@ + name + "'.\nDescription: "@
        + description + "\nPhase: "@ + phase + ", Tech: "@ + tech
        + "\n\nOutput ONLY the complete markdown content (with YAML frontmatter between --- delimiters).\nThe frontmatter should have: name, description, tools (comma-separated list of tools the agent needs).\nThe body should contain the agent's system prompt instructions."@
}

/// The prompt asking the coding agent for the agent file of a new skill.
pub fn create_skill_prompt(name: &str, description: &str, phase: &str, tech: &str) -> (r: String)
    ensures
        r@ == agent_prompt(name@, description@, phase@, tech@),
{
    let mut r = owned("Generate an agent markdown file for a coding agent called '");
    push_str(&mut r, name);
    push_str(&mut r, "'.\nDescription: ");
    push_str(&mut r, description);
    push_str(&mut r, "\nPhase: ");
    push_str(&mut r, phase);
    push_str(&mut r, ", Tech: ");
    push_str(&mut r, tech);
    push_str(
        &mut r,
        "\n\nOutput ONLY the complete markdown content (with YAML frontmatter between --- delimiters).\nThe frontmatter should have: name, description, tools (comma-separated list of tools the agent needs).\nThe body should contain the agent's system prompt instructions.",
    );
    r
}

/// The `skill.json` manifest of a new skill: its name and description, as
/// pretty-printed JSON.
pub fn skill_manifest(name: &str, description: &str) -> (r: String)
    ensures
        r@ == json_pretty_object(seq![("name"@, name@), ("description"@, description@)]),
{
    let mut fields: Vec<(String, String)> = Vec::new();
    fields.push((owned("name"), owned(name)));
    fields.push((owned("description"), owned(description)));
    assert(fields@.map_values(|f: (String, String)| (f.0@, f.1@)) =~= seq![
        ("name"@, name@),
        ("description"@, description@),
    ]);
    pretty_object(&fields)
}

/// The id of a new skill: `<phase>/<tech>/<name>`.
pub fn new_skill_id(phase: &str, tech: &str, name: &str) -> (r: String)
    ensures
        r@ == phase@ + "/"@ + tech@ + "/"@ + name@,
{
    let mut r = owned(phase);
    push_str(&mut r, "/");
    push_str(&mut r, tech);
    push_str(&mut r, "/");
    push_str(&mut r, name);
    r
}

/// An agent file: its parsed frontmatter and body, or, when the frontmatter
/// does not parse, a frontmatter named after the file's stem and the whole
/// content as body.
pub fn agent_file_of(
    filename: String,
    stem: &str,
    content: String,
    parsed: Option<(AgentFrontmatter, String)>,
) -> (r: AgentFile)
    ensures
        r.filename == filename,
        match parsed {
            Some((fm, body)) => r.frontmatter == fm && r.body == body,
            None => {
                &&& r.frontmatter.name@ == stem@
                &&& r.frontmatter.description is None
                &&& r.frontmatter.tools is None
                &&& r.frontmatter.model is None
                &&& r.body == content
            },
        },
{
    match parsed {
        Some((fm, body)) => AgentFile { filename, frontmatter: fm, body },
        None => AgentFile {
            filename,
            frontmatter: AgentFrontmatter {
                name: owned(stem),
                description: None,
                tools: None,
                model: None,
            },
            body: content,
        },
    }
}

impl SortKey for AgentFile {
    open spec fn key(&self) -> Seq<int> {
        char_codes(self.filename@)
    }

    fn key_exec(&self) -> (k: Vec<u32>) {
        str_sort_key(self.filename.as_str())
    }
}

/// Agent files sorted by file name (stably).
pub fn sort_agent_files(agents: Vec<AgentFile>) -> (r: Vec<AgentFile>)
    ensures
        is_stable_sort(agents@, r@),
{
    stable_sort_by_key(agents)
}

/// A file name with a string as its sort key.
#[derive(Debug, Clone)]
pub struct FileName {
    pub name: String,
}

impl SortKey for FileName {
    open spec fn key(&self) -> Seq<int> {
        char_codes(self.name@)
    }

    fn key_exec(&self) -> (k: Vec<u32>) {
        str_sort_key(self.name.as_str())
    }
}

/// The names among `names` with extension `md`, in order.
pub open spec fn md_strings(names: Seq<String>) -> Seq<String>
    decreases names.len(),
{
    if names.len() == 0 {
        Seq::empty()
    } else {
        md_strings(names.drop_last()) + if extension(names.last()@) == Some("md"@) {
            seq![names.last()]
        } else {
            Seq::empty()
        }
    }
}

/// The `.md` names among `names`, in order, as sortable file names.
pub open spec fn md_file_names(names: Seq<String>) -> Seq<FileName> {
    md_strings(names).map_values(|s: String| FileName { name: s })
}

fn is_md(name: &str) -> (r: bool)
    ensures
        r == (extension(name@) == Some("md"@)),
{
    match crate::scanner::deterministic::extension_of(name) {
        Some(e) => str_eq(e.as_str(), "md"),
        None => false,
    }
}

/// The `.md` file names of a directory, sorted by name (stably); none when
/// the directory does not exist (`names` is `None`).
pub fn list_md_files(names: Option<Vec<String>>) -> (r: Vec<String>)
    ensures
        match names {
            None => r@.len() == 0,
            Some(v) => exists|sorted: Seq<FileName>|
                #[trigger] is_stable_sort(md_file_names(v@), sorted) && r@ == sorted.map_values(|f: FileName| f.name),
        },
{
    let v = match names {
        None => {
            return Vec::new();
        },
        Some(v) => v,
    };
    let ghost v0 = v@;
    let mut v = v;
    let n = v.len();
    let mut kept: Vec<FileName> = Vec::new();
    let mut i: usize = 0;
    assert(v0.skip(0) =~= v0);
    while v.len() > 0
        invariant
            i <= n,
            n == v0.len(),
            v@ == v0.skip(i as int),
            kept@ == md_strings(v0.take(i as int)).map_values(|s: String| FileName { name: s }),
        decreases v.len(),
    {
        assert(v@.len() == n - i);
        assert(v@[0] == v0[i as int]);
        let name = v.remove(0);
        assert(v0.skip(i + 1) =~= v0.skip(i as int).drop_first());
        assert(v0.take(i + 1).drop_last() =~= v0.take(i as int));
        assert(v0.take(i + 1).last() == name);
        let ghost before = kept@;
        if is_md(name.as_str()) {
            kept.push(FileName { name });
            assert(kept@ =~= md_strings(v0.take(i + 1)).map_values(|s: String| FileName { name: s }));
        } else {
            assert(kept@ =~= md_strings(v0.take(i + 1)).map_values(|s: String| FileName { name: s }));
        }
        i = i + 1;
    }
    assert(v0.take(i as int) =~= v0);
    let sorted = stable_sort_by_key(kept);
    let ghost s0 = sorted@;
    let mut r: Vec<String> = Vec::new();
    let mut rest = sorted;
    let m = rest.len();
    let mut k: usize = 0;
    assert(s0.skip(0) =~= s0);
    while rest.len() > 0
        invariant
            k <= m,
            m == s0.len(),
            rest@ == s0.skip(k as int),
            r@ == s0.take(k as int).map_values(|f: FileName| f.name),
        decreases rest.len(),
    {
        assert(rest@.len() == m - k);
        assert(rest@[0] == s0[k as int]);
        let f = rest.remove(0);
        assert(s0.skip(k + 1) =~= s0.skip(k as int).drop_first());
        r.push(f.name);
        assert(r@ =~= s0.take(k + 1).map_values(|f: FileName| f.name));
        k = k + 1;
    }
    assert(s0.take(k as int) =~= s0);
    assert(is_stable_sort(md_file_names(v0), s0));
    r
}

} // verus!
