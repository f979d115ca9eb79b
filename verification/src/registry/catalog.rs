//! Building the skill catalog from the registry's `skills/` tree.
use vstd::prelude::*;

use crate::error::ForjaError;
use crate::models::phase::{phase_from_name, phase_name, Phase};
use crate::models::skill::{ContentType, PluginJson, Registry, Skill};
use crate::seqs::{contains_string, flat_map, lemma_flat_map_full, lemma_flat_map_take};
use crate::text::{concat3, owned, push_str};

verus! {

/// A skill directory, `skills/<phase>/<tech>/<name>/`, as the catalog reads it.
#[derive(Debug, Clone)]
pub struct SkillDirFacts {
    pub name: String,
    pub path: String,
    /// The manifest (`skill.json`, else the legacy plugin manifest), when
    /// one can be read and parsed.
    pub manifest: Option<PluginJson>,
    pub has_agents: bool,
    pub has_skills: bool,
    pub has_commands: bool,
}

/// A technology directory and its skill directories.
#[derive(Debug, Clone)]
pub struct TechDirFacts {
    pub name: String,
    pub skills: Vec<SkillDirFacts>,
}

/// A phase directory and its technology directories.
#[derive(Debug, Clone)]
pub struct PhaseDirFacts {
    pub name: String,
    pub techs: Vec<TechDirFacts>,
}

/// The content types a skill directory offers: agents, skills, commands.
pub open spec fn content_types_of(d: SkillDirFacts) -> Seq<ContentType> {
    (if d.has_agents {
        seq![ContentType::Agent]
    } else {
        Seq::empty()
    }) + (if d.has_skills {
        seq![ContentType::Skill]
    } else {
        Seq::empty()
    }) + (if d.has_commands {
        seq![ContentType::Command]
    } else {
        Seq::empty()
    })
}

/// A skill as plain values: id, name, description, phase, tech, path,
/// installed, content types, keywords.
pub type SkillView = (
    Seq<char>,
    Seq<char>,
    Seq<char>,
    Phase,
    Seq<char>,
    Seq<char>,
    bool,
    Seq<ContentType>,
    Seq<Seq<char>>,
);

/// The plain values of a skill.
pub open spec fn skill_view(s: Skill) -> SkillView {
    (
        s.id@,
        s.name@,
        s.description@,
        s.phase,
        s.tech@,
        s.path@,
        s.installed,
        s.content_types@,
        s.keywords@.map_values(|k: String| k@),
    )
}

/// The skill of a directory with manifest `m`: id, phase and tech as
/// given; name, description and keywords from the manifest.
pub open spec fn skill_of(
    d: SkillDirFacts,
    m: PluginJson,
    id: Seq<char>,
    phase: Phase,
    tech: Seq<char>,
    installed_ids: Seq<Seq<char>>,
) -> SkillView {
    (
        id,
        m.name@,
        m.description@,
        phase,
        tech,
        d.path@,
        installed_ids.contains(id),
        content_types_of(d),
        match m.keywords {
            Some(ks) => ks@.map_values(|k: String| k@),
            None => Seq::empty(),
        },
    )
}

fn copy_strings(v: &Vec<String>) -> (r: Vec<String>)
    ensures
        r@.map_values(|s: String| s@) == v@.map_values(|s: String| s@),
{
    let mut r: Vec<String> = Vec::new();
    let mut i: usize = 0;
    while i < v.len()
        invariant
            i <= v.len(),
            r@.map_values(|s: String| s@) == v@.map_values(|s: String| s@).take(i as int),
        decreases v.len() - i,
    {
        let ghost prev = r@;
        r.push(owned(v[i].as_str()));
        assert(r@.map_values(|s: String| s@) =~= prev.map_values(|s: String| s@).push(v@[i as int]@));
        assert(v@.map_values(|s: String| s@).take(i + 1) =~= v@.map_values(|s: String| s@).take(
            i as int,
        ).push(v@[i as int]@));
        i = i + 1;
    }
    assert(v@.map_values(|s: String| s@).take(i as int) =~= v@.map_values(|s: String| s@));
    r
}

/// The skill of a skill directory; `None` when it has no readable manifest.
pub fn parse_skill(
    dir: &SkillDirFacts,
    id: &str,
    phase: Phase,
    tech: &str,
    installed_ids: &Vec<String>,
) -> (r: Option<Skill>)
    ensures
        match (r, dir.manifest) {
            (Some(s), Some(m)) => skill_view(s) == skill_of(
                *dir,
                m,
                id@,
                phase,
                tech@,
                installed_ids@.map_values(|k: String| k@),
            ),
            (None, None) => true,
            _ => false,
        },
{
    let plugin = match &dir.manifest {
        Some(p) => p,
        None => {
            return None;
        },
    };
    let mut content_types: Vec<ContentType> = Vec::new();
    if dir.has_agents {
        content_types.push(ContentType::Agent);
    }
    let ghost c1 = content_types@;
    if dir.has_skills {
        content_types.push(ContentType::Skill);
    }
    let ghost c2 = content_types@;
    if dir.has_commands {
        content_types.push(ContentType::Command);
    }
    assert(content_types@ =~= content_types_of(*dir));
    let keywords = match &plugin.keywords {
        Some(ks) => copy_strings(ks),
        None => Vec::new(),
    };
    assert(keywords@.map_values(|k: String| k@) =~= match plugin.keywords {
        Some(ks) => ks@.map_values(|k: String| k@),
        None => Seq::empty(),
    });
    Some(
        Skill {
            id: owned(id),
            name: owned(plugin.name.as_str()),
            description: owned(plugin.description.as_str()),
            phase,
            tech: owned(tech),
            path: owned(dir.path.as_str()),
            installed: contains_string(installed_ids, id),
            content_types,
            keywords,
        },
    )
}

/// The id of a skill: `<phase>/<tech>/<name>`.
pub open spec fn skill_id(phase: Seq<char>, tech: Seq<char>, name: Seq<char>) -> Seq<char> {
    phase + "/"@ + tech + "/"@ + name
}

/// The skills of one technology directory, in order: one for each skill
/// directory with a manifest.
pub open spec fn tech_catalog(
    phase_dir: Seq<char>,
    phase: Phase,
    t: TechDirFacts,
    installed_ids: Seq<Seq<char>>,
) -> Seq<SkillView> {
    flat_map(
        t.skills@,
        |d: SkillDirFacts|
            match d.manifest {
                Some(m) => seq![
                    skill_of(d, m, skill_id(phase_dir, t.name@, d.name@), phase, t.name@, installed_ids),
                ],
                None => Seq::empty(),
            },
    )
}

/// The skills of one phase directory; none when its name is no phase.
pub open spec fn phase_catalog(d: PhaseDirFacts, installed_ids: Seq<Seq<char>>) -> Seq<SkillView> {
    match phase_from_name(d.name@) {
        Some(phase) => flat_map(
            d.techs@,
            |t: TechDirFacts| tech_catalog(d.name@, phase, t, installed_ids),
        ),
        None => Seq::empty(),
    }
}

/// The skills of the tree, in order: for each phase directory whose name
/// is a phase, each technology directory, each skill directory with a
/// manifest.
pub open spec fn catalog(phases: Seq<PhaseDirFacts>, installed_ids: Seq<Seq<char>>) -> Seq<SkillView> {
    flat_map(phases, |d: PhaseDirFacts| phase_catalog(d, installed_ids))
}

/// The plain values of a list of skills.
pub open spec fn skills_view(v: Seq<Skill>) -> Seq<SkillView> {
    v.map_values(|s: Skill| skill_view(s))
}

fn push_tech_skills(
    out: &mut Vec<Skill>,
    phase_dir: &str,
    phase: Phase,
    t: &TechDirFacts,
    installed_ids: &Vec<String>,
)
    ensures
        skills_view(final(out)@) == skills_view(old(out)@) + tech_catalog(
            phase_dir@,
            phase,
            *t,
            installed_ids@.map_values(|k: String| k@),
        ),
{
    let ghost inst = installed_ids@.map_values(|k: String| k@);
    let ghost f = |d: SkillDirFacts|
        match d.manifest {
            Some(m) => seq![skill_of(d, m, skill_id(phase_dir@, t.name@, d.name@), phase, t.name@, inst)],
            None => Seq::<SkillView>::empty(),
        };
    let ghost o0 = skills_view(out@);
    let mut i: usize = 0;
    while i < t.skills.len()
        invariant
            i <= t.skills@.len(),
            inst == installed_ids@.map_values(|k: String| k@),
            f == (|d: SkillDirFacts|
                match d.manifest {
                    Some(m) => seq![
                        skill_of(d, m, skill_id(phase_dir@, t.name@, d.name@), phase, t.name@, inst),
                    ],
                    None => Seq::<SkillView>::empty(),
                }),
            skills_view(out@) == o0 + flat_map(t.skills@.take(i as int), f),
        decreases t.skills.len() - i,
    {
        proof {
            lemma_flat_map_take(t.skills@, f, i as int);
        }
        let d = &t.skills[i];
        let mut id = concat3(phase_dir, "/", t.name.as_str());
        push_str(&mut id, "/");
        push_str(&mut id, d.name.as_str());
        let ghost before = out@;
        match parse_skill(d, id.as_str(), phase, t.name.as_str(), installed_ids) {
            Some(skill) => {
                out.push(skill);
                assert(skills_view(out@) =~= skills_view(before).push(skill_view(skill)));
            },
            None => {
                assert(skills_view(out@) =~= skills_view(before) + Seq::<SkillView>::empty());
            },
        }
        i = i + 1;
    }
    proof {
        lemma_flat_map_full(t.skills@, f);
    }
}

fn push_phase_skills(out: &mut Vec<Skill>, d: &PhaseDirFacts, installed_ids: &Vec<String>)
    ensures
        skills_view(final(out)@) == skills_view(old(out)@) + phase_catalog(
            *d,
            installed_ids@.map_values(|k: String| k@),
        ),
{
    let ghost inst = installed_ids@.map_values(|k: String| k@);
    let phase = match Phase::parse(d.name.as_str()) {
        Ok(p) => p,
        Err(_) => {
            assert(skills_view(out@) =~= skills_view(out@) + Seq::<SkillView>::empty());
            return;
        },
    };
    let ghost f = |t: TechDirFacts| tech_catalog(d.name@, phase, t, inst);
    let ghost o0 = skills_view(out@);
    let mut i: usize = 0;
    while i < d.techs.len()
        invariant
            i <= d.techs@.len(),
            phase_from_name(d.name@) == Some(phase),
            inst == installed_ids@.map_values(|k: String| k@),
            f == (|t: TechDirFacts| tech_catalog(d.name@, phase, t, inst)),
            skills_view(out@) == o0 + flat_map(d.techs@.take(i as int), f),
        decreases d.techs.len() - i,
    {
        proof {
            lemma_flat_map_take(d.techs@, f, i as int);
        }
        push_tech_skills(out, d.name.as_str(), phase, &d.techs[i], installed_ids);
        i = i + 1;
    }
    proof {
        lemma_flat_map_full(d.techs@, f);
    }
}

/// Build the registry from the `skills/<phase>/<tech>/<skill>/` tree.
/// `tree` is `None` when `skills/` does not exist (an empty registry), or
/// the error met while reading it, or its phase directories, each level
/// listed without hidden directories and sorted by name.
pub fn scan(tree: Option<Result<Vec<PhaseDirFacts>, ForjaError>>, installed_ids: &Vec<String>) -> (r:
    Result<Registry, ForjaError>)
    ensures
        match tree {
            None => r is Ok && r->Ok_0.skills@.len() == 0,
            Some(Err(e)) => r == Err::<Registry, ForjaError>(e),
            Some(Ok(phases)) => r is Ok && skills_view(r->Ok_0.skills@) == catalog(
                phases@,
                installed_ids@.map_values(|k: String| k@),
            ),
        },
{
    let phases = match tree {
        None => {
            return Ok(Registry::new(Vec::new()));
        },
        Some(Err(e)) => {
            return Err(e);
        },
        Some(Ok(p)) => p,
    };
    let ghost inst = installed_ids@.map_values(|k: String| k@);
    let ghost f = |d: PhaseDirFacts| phase_catalog(d, inst);
    let mut skills: Vec<Skill> = Vec::new();
    assert(skills_view(skills@) =~= Seq::<SkillView>::empty());
    let mut i: usize = 0;
    while i < phases.len()
        invariant
            i <= phases@.len(),
            inst == installed_ids@.map_values(|k: String| k@),
            f == (|d: PhaseDirFacts| phase_catalog(d, inst)),
            skills_view(skills@) == flat_map(phases@.take(i as int), f),
        decreases phases.len() - i,
    {
        proof {
            lemma_flat_map_take(phases@, f, i as int);
        }
        push_phase_skills(&mut skills, &phases[i], installed_ids);
        i = i + 1;
    }
    proof {
        lemma_flat_map_full(phases@, f);
    }
    Ok(Registry::new(skills))
}

/// How many of the names are phase names (exactly, in lowercase).
pub open spec fn phase_dir_count(names: Seq<Seq<char>>) -> nat
    decreases names.len(),
{
    if names.len() == 0 {
        0
    } else {
        phase_dir_count(names.drop_last()) + if Phase::all_names().contains(names.last()) {
            1nat
        } else {
            0nat
        }
    }
}

/// Whether a directory looks like the forja registry: its `skills/`
/// directory exists (`skills_subdirs` lists the names of the directories
/// in it) and at least three of them are named after phases.
pub fn is_forja_registry(skills_subdirs: Option<&Vec<String>>) -> (r: bool)
    ensures
        r == match skills_subdirs {
            None => false,
            Some(names) => phase_dir_count(names@.map_values(|n: String| n@)) >= 3,
        },
{
    let names = match skills_subdirs {
        None => {
            return false;
        },
        Some(n) => n,
    };
    let phases = Phase::all();
    let mut phase_names: Vec<&str> = Vec::new();
    let mut k: usize = 0;
    while k < phases.len()
        invariant
            k <= phases@.len(),
            phases@ == seq![
                Phase::Research,
                Phase::Code,
                Phase::Test,
                Phase::Review,
                Phase::Deploy,
                Phase::Teams,
            ],
            crate::seqs::strs(phase_names@) == phases@.take(k as int).map_values(|p: Phase| phase_name(p)),
        decreases phases.len() - k,
    {
        let ghost prev = phase_names@;
        phase_names.push(phases[k].as_str());
        assert(crate::seqs::strs(phase_names@) =~= crate::seqs::strs(prev).push(phase_name(phases@[k as int])));
        assert(phases@.take(k + 1).map_values(|p: Phase| phase_name(p)) =~= phases@.take(k as int).map_values(
            |p: Phase| phase_name(p),
        ).push(phase_name(phases@[k as int])));
        k = k + 1;
    }
    assert(phases@.take(k as int).map_values(|p: Phase| phase_name(p)) =~= Phase::all_names());
    let ghost nv = names@.map_values(|n: String| n@);
    let mut count: usize = 0;
    let mut i: usize = 0;
    while i < names.len()
        invariant
            i <= names@.len(),
            nv == names@.map_values(|n: String| n@),
            crate::seqs::strs(phase_names@) == Phase::all_names(),
            count == phase_dir_count(nv.take(i as int)),
            count <= i,
        decreases names.len() - i,
    {
        assert(nv.take(i + 1).drop_last() =~= nv.take(i as int));
        if crate::seqs::contains_str(&phase_names, names[i].as_str()) {
            count = count + 1;
        }
        i = i + 1;
    }
    assert(nv.take(i as int) =~= nv);
    count >= 3
}

} // verus!
