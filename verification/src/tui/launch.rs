//! What the launcher forms hand back, and the team options they offer.
use vstd::prelude::*;

use crate::error::ForjaError;
use crate::seqs::contains_string;
use crate::sorting::{char_codes, is_stable_sort, stable_sort_by_key, str_sort_key, SortKey};
use crate::text::{decimal, decimal_string, owned, push_str};
use crate::tui::app::{description_of, profile_named, App, Profile};

verus! {

/// Output produced by the task form when the user launches.
#[derive(Debug, Clone)]
pub struct TaskOutput {
    pub description: String,
    pub team: Option<String>,
    pub profile: Profile,
}

/// Output produced by the plan form when the user creates the plan.
#[derive(Debug, Clone)]
pub struct PlanOutput {
    pub description: String,
}

/// What the task form hands back once closed: nothing when it was not
/// launched; else the description, the team (none for "Solo") and the
/// profile, or an error when the selected label names no profile.
pub fn task_output(app: &App) -> (r: Result<Option<TaskOutput>, ForjaError>)
    requires
        app.should_launch ==> app.profile_index < app.profile_options@.len(),
        app.should_launch && app.team_index != 0 ==> app.team_index < app.team_names@.len(),
    ensures
        !app.should_launch ==> r == Ok::<Option<TaskOutput>, ForjaError>(None),
        app.should_launch ==> {
            let label = app.profile_options@[app.profile_index as int]@;
            match profile_named(label) {
                None => {
                    &&& r matches Err(ForjaError::Dialoguer(m))
                    &&& m@ == "unknown profile: "@ + label
                },
                Some(p) => {
                    &&& r matches Ok(Some(out))
                    &&& out.description@ == description_of(app.lines@)
                    &&& out.profile == p
                    &&& app.team_index == 0 ==> out.team is None
                    &&& app.team_index != 0 ==> out.team is Some && out.team->0@
                        == app.team_names@[app.team_index as int]@
                },
            }
        },
{
    if !app.should_launch {
        return Ok(None);
    }
    let profile = match Profile::parse(app.selected_profile()) {
        Ok(p) => p,
        Err(e) => {
            return Err(ForjaError::Dialoguer(e));
        },
    };
    let team = match app.selected_team() {
        Some(t) => Some(owned(t)),
        None => None,
    };
    Ok(Some(TaskOutput { description: app.description(), team, profile }))
}

/// What the plan form hands back once closed: the description when it was
/// launched, else nothing.
pub fn plan_output(app: &App) -> (r: Option<PlanOutput>)
    ensures
        !app.should_launch ==> r is None,
        app.should_launch ==> r is Some && r->0.description@ == description_of(app.lines@),
{
    if app.should_launch {
        Some(PlanOutput { description: app.description() })
    } else {
        None
    }
}

/// A team configured in forja's state: its name and number of members.
#[derive(Debug, Clone)]
pub struct ConfiguredTeam {
    pub name: String,
    pub members: usize,
}

impl SortKey for ConfiguredTeam {
    open spec fn key(&self) -> Seq<int> {
        char_codes(self.name@)
    }

    fn key_exec(&self) -> (k: Vec<u32>) {
        str_sort_key(self.name.as_str())
    }
}

/// The preset teams that are not among `taken`, in order, as (name, label).
pub open spec fn free_presets(taken: Seq<Seq<char>>) -> Seq<(Seq<char>, Seq<char>)> {
    (if taken.contains("quick-fix"@) {
        Seq::empty()
    } else {
        seq![("quick-fix"@, "quick-fix (coder + deployer)"@)]
    }) + (if taken.contains("solo-sprint"@) {
        Seq::empty()
    } else {
        seq![("solo-sprint"@, "solo-sprint (coder-tester + code review)"@)]
    }) + (if taken.contains("full-product"@) {
        Seq::empty()
    } else {
        seq![("full-product"@, "full-product (5 agents)"@)]
    })
}

/// The label of a configured team: `<name> (<members> agents)`.
pub open spec fn team_label(t: ConfiguredTeam) -> Seq<char> {
    t.name@ + " ("@ + decimal(t.members as nat) + " agents)"@
}

/// The names of the configured teams.
pub open spec fn team_names(teams: Seq<ConfiguredTeam>) -> Seq<Seq<char>> {
    teams.map_values(|t: ConfiguredTeam| t.name@)
}

/// The views of a list of strings.
pub open spec fn string_views(v: Seq<String>) -> Seq<Seq<char>> {
    v.map_values(|s: String| s@)
}

fn add_preset(
    labels: &mut Vec<String>,
    names: &mut Vec<String>,
    taken: &Vec<String>,
    name: &str,
    label: &str,
)
    ensures
        string_views(taken@).contains(name@) ==> final(labels)@ == old(labels)@ && final(names)@
            == old(names)@,
        !string_views(taken@).contains(name@) ==> string_views(final(labels)@) == string_views(
            old(labels)@,
        ).push(label@) && string_views(final(names)@) == string_views(old(names)@).push(name@),
{
    if !contains_string(taken, name) {
        let ghost l0 = labels@;
        let ghost n0 = names@;
        labels.push(owned(label));
        names.push(owned(name));
        assert(string_views(labels@) =~= string_views(l0).push(label@));
        assert(string_views(names@) =~= string_views(n0).push(name@));
    }
}

/// The team options of the task form, as (labels shown, names used): "Solo"
/// first, then the preset teams that are not configured, then the configured
/// teams sorted by name. With no state (`None`, forja not initialized) all
/// presets are offered.
pub fn team_options(configured: Option<Vec<ConfiguredTeam>>) -> (r: (Vec<String>, Vec<String>))
    ensures
        match configured {
            None => {
                let free = free_presets(Seq::empty());
                &&& string_views(r.0@) == seq!["Solo"@] + free.map_values(
                    |p: (Seq<char>, Seq<char>)| p.1,
                )
                &&& string_views(r.1@) == seq!["solo"@] + free.map_values(
                    |p: (Seq<char>, Seq<char>)| p.0,
                )
            },
            Some(teams) => exists|sorted: Seq<ConfiguredTeam>|
                {
                    let free = free_presets(team_names(teams@));
                    &&& #[trigger] is_stable_sort(teams@, sorted)
                    &&& string_views(r.0@) == seq!["Solo"@] + free.map_values(
                        |p: (Seq<char>, Seq<char>)| p.1,
                    ) + sorted.map_values(|t: ConfiguredTeam| team_label(t))
                    &&& string_views(r.1@) == seq!["solo"@] + free.map_values(
                        |p: (Seq<char>, Seq<char>)| p.0,
                    ) + team_names(sorted)
                },
        },
{
    let mut labels: Vec<String> = Vec::new();
    labels.push(owned("Solo"));
    let mut names: Vec<String> = Vec::new();
    names.push(owned("solo"));
    let teams = match configured {
        None => Vec::new(),
        Some(t) => t,
    };
    let ghost t0 = teams@;
    let mut taken: Vec<String> = Vec::new();
    let mut i: usize = 0;
    while i < teams.len()
        invariant
            i <= teams@.len(),
            string_views(taken@) == team_names(teams@).take(i as int),
        decreases teams@.len() - i,
    {
        let ghost before = taken@;
        taken.push(owned(teams[i].name.as_str()));
        assert(string_views(taken@) =~= string_views(before).push(teams@[i as int].name@));
        assert(team_names(teams@).take(i + 1) =~= team_names(teams@).take(i as int).push(
            teams@[i as int].name@,
        ));
        i = i + 1;
    }
    assert(team_names(teams@).take(i as int) =~= team_names(teams@));
    let ghost l0 = labels@;
    let ghost n0 = names@;
    add_preset(&mut labels, &mut names, &taken, "quick-fix", "quick-fix (coder + deployer)");
    add_preset(&mut labels, &mut names, &taken, "solo-sprint", "solo-sprint (coder-tester + code review)");
    add_preset(&mut labels, &mut names, &taken, "full-product", "full-product (5 agents)");
    let ghost free = free_presets(string_views(taken@));
    assert(string_views(labels@) =~= seq!["Solo"@] + free.map_values(
        |p: (Seq<char>, Seq<char>)| p.1,
    ));
    assert(string_views(names@) =~= seq!["solo"@] + free.map_values(
        |p: (Seq<char>, Seq<char>)| p.0,
    ));
    let ghost l1 = string_views(labels@);
    let ghost n1 = string_views(names@);
    let sorted = stable_sort_by_key(teams);
    let ghost s0 = sorted@;
    let mut rest = sorted;
    let m = rest.len();
    let mut k: usize = 0;
    assert(s0.skip(0) =~= s0);
    while rest.len() > 0
        invariant
            k <= m,
            m == s0.len(),
            rest@ == s0.skip(k as int),
            string_views(labels@) == l1 + s0.take(k as int).map_values(
                |t: ConfiguredTeam| team_label(t),
            ),
            string_views(names@) == n1 + team_names(s0.take(k as int)),
        decreases rest.len(),
    {
        assert(rest@.len() == m - k);
        assert(rest@[0] == s0[k as int]);
        let t = rest.remove(0);
        assert(s0.skip(k + 1) =~= s0.skip(k as int).drop_first());
        let ghost lb = string_views(labels@);
        let ghost nb = string_views(names@);
        let mut label = owned(t.name.as_str());
        push_str(&mut label, " (");
        let count = decimal_string(t.members as u64);
        push_str(&mut label, count.as_str());
        push_str(&mut label, " agents)");
        labels.push(label);
        names.push(t.name);
        assert(string_views(labels@) =~= lb.push(team_label(t)));
        assert(string_views(names@) =~= nb.push(t.name@));
        assert(s0.take(k + 1) =~= s0.take(k as int).push(t));
        assert(s0.take(k + 1).map_values(|t: ConfiguredTeam| team_label(t)) =~= s0.take(
            k as int,
        ).map_values(|t: ConfiguredTeam| team_label(t)).push(team_label(t)));
        assert(team_names(s0.take(k + 1)) =~= team_names(s0.take(k as int)).push(t.name@));
        k = k + 1;
    }
    assert(s0.take(k as int) =~= s0);
    assert(is_stable_sort(t0, s0));
    (labels, names)
}

} // verus!
