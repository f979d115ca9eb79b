//! The workflow phases that organize the skill catalog.
use vstd::prelude::*;

use crate::text::{chars_eq, chars_of, concat2};

verus! {

/// The five workflow phases that organize the skill catalog, plus a Teams meta-phase.
#[derive(Debug, Clone, Copy, PartialEq, Eq, Hash)]
pub enum Phase {
    Research,
    Code,
    Test,
    Review,
    Deploy,
    Teams,
}

/// The lowercase name of a phase.
pub open spec fn phase_name(p: Phase) -> Seq<char> {
    match p {
        Phase::Research => "research"@,
        Phase::Code => "code"@,
        Phase::Test => "test"@,
        Phase::Review => "review"@,
        Phase::Deploy => "deploy"@,
        Phase::Teams => "teams"@,
    }
}

/// ASCII lowercase of a character.
pub open spec fn ascii_lower(c: char) -> char {
    if 'A' <= c && c <= 'Z' {
        ((c as u32) + 32) as char
    } else {
        c
    }
}

/// `s` lowercased (every character whose lowercase is ASCII is an ASCII letter,
/// apart from the Kelvin sign, which lowercases to `k`).
pub open spec fn lower_for_ascii_match(s: Seq<char>) -> Seq<char> {
    s.map_values(|c: char| if c == '\u{212A}' { 'k' } else { ascii_lower(c) })
}

/// The phase named `s`, case-insensitively.
pub open spec fn phase_from_name(s: Seq<char>) -> Option<Phase> {
    let l = lower_for_ascii_match(s);
    if l == "research"@ {
        Some(Phase::Research)
    } else if l == "code"@ {
        Some(Phase::Code)
    } else if l == "test"@ {
        Some(Phase::Test)
    } else if l == "review"@ {
        Some(Phase::Review)
    } else if l == "deploy"@ {
        Some(Phase::Deploy)
    } else if l == "teams"@ {
        Some(Phase::Teams)
    } else {
        None
    }
}

impl Phase {
    /// The names of all phases, in workflow order.
    pub open spec fn all_names() -> Seq<Seq<char>> {
        seq![
            phase_name(Phase::Research),
            phase_name(Phase::Code),
            phase_name(Phase::Test),
            phase_name(Phase::Review),
            phase_name(Phase::Deploy),
            phase_name(Phase::Teams),
        ]
    }

    /// All phases, in workflow order.
    pub fn all() -> (r: Vec<Phase>)
        ensures
            r@ == seq![
                Phase::Research,
                Phase::Code,
                Phase::Test,
                Phase::Review,
                Phase::Deploy,
                Phase::Teams,
            ],
    {
        let mut v = Vec::new();
        v.push(Phase::Research);
        v.push(Phase::Code);
        v.push(Phase::Test);
        v.push(Phase::Review);
        v.push(Phase::Deploy);
        v.push(Phase::Teams);
        v
    }

    /// A one-line description of the phase.
    pub fn description(&self) -> (r: &'static str)
        ensures
            r@ == match *self {
                Phase::Research => "Explore codebase, research docs, plan architecture"@,
                Phase::Code => "Write code with tech-specific best practices"@,
                Phase::Test => "TDD, E2E testing, coverage analysis"@,
                Phase::Review => "Code quality, security, performance, PR workflow"@,
                Phase::Deploy => "Git, CI/CD, deployment automation"@,
                Phase::Teams => "Multi-agent team configurations"@,
            },
    {
        match self {
            Phase::Research => "Explore codebase, research docs, plan architecture",
            Phase::Code => "Write code with tech-specific best practices",
            Phase::Test => "TDD, E2E testing, coverage analysis",
            Phase::Review => "Code quality, security, performance, PR workflow",
            Phase::Deploy => "Git, CI/CD, deployment automation",
            Phase::Teams => "Multi-agent team configurations",
        }
    }

    /// The phase's lowercase name.
    pub fn as_str(&self) -> (r: &'static str)
        ensures
            r@ == phase_name(*self),
    {
        match self {
            Phase::Research => "research",
            Phase::Code => "code",
            Phase::Test => "test",
            Phase::Review => "review",
            Phase::Deploy => "deploy",
            Phase::Teams => "teams",
        }
    }

    /// Research and Review are the thinking phases.
    pub fn is_thinking_phase(&self) -> (r: bool)
        ensures
            r == (*self == Phase::Research || *self == Phase::Review),
    {
        match self {
            Phase::Research | Phase::Review => true,
            _ => false,
        }
    }
}

} // verus!

verus! {

/// ASCII lowercase of one character, with the Kelvin sign mapped to `k`.
fn lower_for_match(c: char) -> (r: char)
    ensures
        r == (if c == '\u{212A}' { 'k' } else { ascii_lower(c) }),
{
    if c == '\u{212A}' {
        'k'
    } else if 'A' <= c && c <= 'Z' {
        ((c as u8) + 32) as char
    } else {
        c
    }
}

impl Phase {
    /// Parse a phase name, ignoring case.
    pub fn parse(s: &str) -> (r: Result<Phase, String>)
        ensures
            match phase_from_name(s@) {
                Some(p) => r == Ok::<Phase, String>(p),
                None => r matches Err(m) && m@ == "unknown phase: "@ + s@,
            },
    {
        let cs = chars_of(s);
        let mut l: Vec<char> = Vec::new();
        let mut i: usize = 0;
        while i < cs.len()
            invariant
                i <= cs.len(),
                cs@ == s@,
                l@ == lower_for_ascii_match(s@).take(i as int),
            decreases cs.len() - i,
        {
            let c = lower_for_match(cs[i]);
            l.push(c);
            i = i + 1;
            assert(l@ =~= lower_for_ascii_match(s@).take(i as int));
        }
        assert(l@ =~= lower_for_ascii_match(s@));
        if chars_eq(&l, &chars_of("research")) {
            Ok(Phase::Research)
        } else if chars_eq(&l, &chars_of("code")) {
            Ok(Phase::Code)
        } else if chars_eq(&l, &chars_of("test")) {
            Ok(Phase::Test)
        } else if chars_eq(&l, &chars_of("review")) {
            Ok(Phase::Review)
        } else if chars_eq(&l, &chars_of("deploy")) {
            Ok(Phase::Deploy)
        } else if chars_eq(&l, &chars_of("teams")) {
            Ok(Phase::Teams)
        } else {
            Err(concat2("unknown phase: ", s))
        }
    }
}

impl core::str::FromStr for Phase {
    type Err = String;

    fn from_str(s: &str) -> (r: Result<Phase, String>)
        ensures
            match phase_from_name(s@) {
                Some(p) => r == Ok::<Phase, String>(p),
                None => r matches Err(m) && m@ == "unknown phase: "@ + s@,
            },
    {
        Phase::parse(s)
    }
}

} // verus!
