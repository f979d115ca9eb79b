//! Skills of the registry catalog, their manifests and agent files, and the
//! registry itself.
use vstd::prelude::*;

use crate::models::phase::{ascii_lower, phase_name, Phase};
use crate::sorting::{first_index, position_of, Keyed};
use crate::seqs::{flat_map, lemma_flat_map_full, lemma_flat_map_take};
use crate::text::{chars_of, contains, find_chars, owned};

verus! {

/// The kinds of content a skill directory can hold.
#[derive(Debug, Clone, Copy, PartialEq, Eq)]
pub enum ContentType {
    Skill,
    Agent,
    Command,
}

impl ContentType {
    /// The content type's lowercase name, as it displays.
    pub fn as_str(&self) -> (r: &'static str)
        ensures
            r@ == match *self {
                ContentType::Skill => "skill"@,
                ContentType::Agent => "agent"@,
                ContentType::Command => "command"@,
            },
    {
        match self {
            ContentType::Skill => "skill",
            ContentType::Agent => "agent",
            ContentType::Command => "command",
        }
    }

    /// The content type's name as an owned string (what `Display` prints).
    pub fn to_display_string(&self) -> (r: String)
        ensures
            r@ == match *self {
                ContentType::Skill => "skill"@,
                ContentType::Agent => "agent"@,
                ContentType::Command => "command"@,
            },
    {
        owned(self.as_str())
    }
}

/// A skill entry indexed from the registry catalog, found at
/// `skills/<phase>/<tech>/<skill-name>/`.
#[derive(Debug, Clone)]
pub struct Skill {
    pub id: String,
    pub name: String,
    pub description: String,
    pub phase: Phase,
    pub tech: String,
    pub path: String,
    pub installed: bool,
    pub content_types: Vec<ContentType>,
    pub keywords: Vec<String>,
}

impl Keyed for Skill {
    open spec fn key_of(&self) -> Seq<char> {
        self.id@
    }

    fn key_str(&self) -> (r: &str) {
        self.id.as_str()
    }
}

/// The author named in a skill manifest.
#[derive(Debug, Clone)]
pub struct Author {
    pub name: String,
    pub email: Option<String>,
}

/// A skill manifest (`skill.json`, or the legacy `plugin.json` of the agent's plugin directory).
#[derive(Debug, Clone)]
pub struct PluginJson {
    pub name: String,
    pub description: String,
    pub version: Option<String>,
    pub author: Option<Author>,
    pub license: Option<String>,
    pub keywords: Option<Vec<String>>,
}

/// The YAML frontmatter of an agent `.md` file.
#[derive(Debug, Clone)]
pub struct AgentFrontmatter {
    pub name: String,
    pub description: Option<String>,
    pub tools: Option<String>,
    pub model: Option<String>,
}

/// A parsed agent file: frontmatter and markdown body.
#[derive(Debug, Clone)]
pub struct AgentFile {
    pub filename: String,
    pub frontmatter: AgentFrontmatter,
    pub body: String,
}

/// Everything about one skill: the skill, its agent files and the files of
/// its `skills/` and `commands/` directories.
#[derive(Debug, Clone)]
pub struct SkillDetail {
    pub skill: Skill,
    pub agents: Vec<AgentFile>,
    pub skill_files: Vec<String>,
    pub command_files: Vec<String>,
}

/// The skills of a registry catalog.
#[derive(Debug, Clone)]
pub struct Registry {
    pub skills: Vec<Skill>,
}

/// The skill a lookup of `id` finds among `skills`: the first with that id.
pub open spec fn registry_lookup(skills: Seq<Skill>, id: Seq<char>) -> Option<Skill>
    decreases skills.len(),
{
    if skills.len() == 0 {
        None
    } else {
        match registry_lookup(skills.drop_last(), id) {
            Some(s) => Some(s),
            None => if skills.last().id@ == id {
                Some(skills.last())
            } else {
                None
            },
        }
    }
}

proof fn lemma_lookup_first(skills: Seq<Skill>, id: Seq<char>, r: Option<usize>)
    requires
        first_index(skills, id, r),
    ensures
        registry_lookup(skills, id) == match r {
            Some(i) => Some(skills[i as int]),
            None => None::<Skill>,
        },
    decreases skills.len(),
{
    if skills.len() > 0 {
        let pre = skills.drop_last();
        match r {
            Some(i) => {
                if (i as int) < pre.len() {
                    lemma_lookup_first(pre, id, Some(i));
                } else {
                    lemma_lookup_first(pre, id, None);
                }
            },
            None => {
                lemma_lookup_first(pre, id, None);
            },
        }
    }
}

/// `s` with its ASCII letters in lower case.
pub open spec fn lowered(s: Seq<char>) -> Seq<char> {
    s.map_values(|c: char| ascii_lower(c))
}

/// `query` occurs, ignoring ASCII case, in the skill's name, description,
/// phase or tech.
pub open spec fn skill_matches(sk: Skill, query: Seq<char>) -> bool {
    let q = lowered(query);
    ||| contains(lowered(sk.name@), q)
    ||| contains(lowered(sk.description@), q)
    ||| contains(lowered(phase_name(sk.phase)), q)
    ||| contains(lowered(sk.tech@), q)
}

/// The skills that match `query`, in registry order.
pub open spec fn search_results(skills: Seq<Skill>, query: Seq<char>) -> Seq<Skill> {
    flat_map(skills, |sk: Skill| if skill_matches(sk, query) { seq![sk] } else { Seq::empty() })
}

/// The characters of `s` with its ASCII letters in lower case.
fn lowered_chars(s: &str) -> (r: Vec<char>)
    ensures
        r@ == lowered(s@),
{
    let cs = chars_of(s);
    let mut r: Vec<char> = Vec::new();
    let mut i: usize = 0;
    while i < cs.len()
        invariant
            i <= cs.len(),
            cs@ == s@,
            r@ == lowered(s@).take(i as int),
        decreases cs.len() - i,
    {
        let c = cs[i];
        let l = if 'A' <= c && c <= 'Z' {
            ((c as u8) + 32) as char
        } else {
            c
        };
        r.push(l);
        i = i + 1;
        assert(r@ =~= lowered(s@).take(i as int));
    }
    assert(r@ =~= lowered(s@));
    r
}

fn contains_lowered(text: &str, q: &Vec<char>) -> (r: bool)
    ensures
        r == contains(lowered(text@), q@),
{
    let t = lowered_chars(text);
    find_chars(&t, q, 0).is_some()
}

impl Registry {
    /// The skills whose name, description, phase or tech contains `query`,
    /// ignoring ASCII case, in registry order.
    pub fn search(&self, query: &str) -> (r: Vec<&Skill>)
        ensures
            r@.map_values(|s: &Skill| *s) == search_results(self.skills@, query@),
    {
        let q = lowered_chars(query);
        let ghost f = |sk: Skill| if skill_matches(sk, query@) { seq![sk] } else { Seq::<Skill>::empty() };
        let mut r: Vec<&Skill> = Vec::new();
        let mut i: usize = 0;
        while i < self.skills.len()
            invariant
                i <= self.skills@.len(),
                q@ == lowered(query@),
                f == (|sk: Skill| if skill_matches(sk, query@) { seq![sk] } else { Seq::<Skill>::empty() }),
                r@.map_values(|s: &Skill| *s) == flat_map(self.skills@.take(i as int), f),
            decreases self.skills.len() - i,
        {
            proof {
                lemma_flat_map_take(self.skills@, f, i as int);
            }
            let sk = &self.skills[i];
            let hit = contains_lowered(sk.name.as_str(), &q) || contains_lowered(
                sk.description.as_str(),
                &q,
            ) || contains_lowered(sk.phase.as_str(), &q) || contains_lowered(sk.tech.as_str(), &q);
            let ghost before = r@;
            if hit {
                r.push(sk);
                assert(r@.map_values(|s: &Skill| *s) =~= before.map_values(|s: &Skill| *s) + seq![*sk]);
            } else {
                assert(r@.map_values(|s: &Skill| *s) =~= before.map_values(|s: &Skill| *s) + Seq::<Skill>::empty());
            }
            i = i + 1;
        }
        proof {
            lemma_flat_map_full(self.skills@, f);
        }
        r
    }

    /// A registry of the given skills.
    pub fn new(skills: Vec<Skill>) -> (r: Registry)
        ensures
            r.skills@ == skills@,
    {
        Registry { skills }
    }

    /// The first skill with id `id`.
    pub fn find_by_id(&self, id: &str) -> (r: Option<&Skill>)
        ensures
            r == match registry_lookup(self.skills@, id@) {
                Some(s) => Some(&s),
                None => None::<&Skill>,
            },
    {
        let found = position_of(&self.skills, id);
        proof {
            lemma_lookup_first(self.skills@, id@, found);
        }
        match found {
            Some(i) => Some(&self.skills[i]),
            None => None,
        }
    }
}

} // verus!
