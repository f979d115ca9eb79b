//! `CONTEXT.md`: a concise, AI-readable summary of the project's state.
use vstd::prelude::*;

use crate::models::decision::{DecisionFile, DecisionStatus};
use crate::models::spec::{SpecFile, SpecStatus};
use crate::models::track::{count_done, TrackFile};
use crate::seqs::{flat_map, join, join_strs, lemma_flat_map_full, lemma_flat_map_take, strs};
use crate::text::{decimal, decimal_string, push_str, str_eq};

verus! {

/// The line of a track: its title and how many of its items are done.
pub open spec fn track_line(t: TrackFile) -> Seq<char> {
    "- Track: "@ + t.frontmatter.title@ + " ("@ + decimal(count_done(t.items@)) + "/"@ + decimal(
        t.items@.len(),
    ) + " done)\n"@
}

/// A spec being worked on: in progress or executing.
pub open spec fn is_in_progress(s: SpecFile) -> bool {
    s.status == SpecStatus::InProgress || s.status == SpecStatus::Executing
}

/// A spec not yet finished: neither done, complete nor failed.
pub open spec fn is_open(s: SpecFile) -> bool {
    !(s.status == SpecStatus::Done || s.status == SpecStatus::Complete || s.status
        == SpecStatus::Failed)
}

/// The ids of the specs in progress, in order.
pub open spec fn in_progress_ids(specs: Seq<SpecFile>) -> Seq<Seq<char>> {
    flat_map(
        specs,
        |s: SpecFile|
            if is_in_progress(s) {
                seq![s.frontmatter.id@]
            } else {
                Seq::empty()
            },
    )
}

/// The ids of the blocked specs, in order.
pub open spec fn blocked_ids(specs: Seq<SpecFile>) -> Seq<Seq<char>> {
    flat_map(
        specs,
        |s: SpecFile|
            if s.status == SpecStatus::Blocked {
                seq![s.frontmatter.id@]
            } else {
                Seq::empty()
            },
    )
}

/// The line of an accepted decision; nothing for other decisions.
pub open spec fn decision_line(d: DecisionFile) -> Seq<char> {
    if d.frontmatter.status == DecisionStatus::Accepted {
        "- "@ + d.frontmatter.title@ + " (decision "@ + d.frontmatter.id@ + ")\n"@
    } else {
        Seq::empty()
    }
}

/// The rank of a priority: `high` first, then `medium`, `low`, and anything
/// else (or none) last.
pub open spec fn priority_rank(p: Option<String>) -> int {
    match p {
        Some(s) => if s@ == "high"@ {
            0
        } else if s@ == "medium"@ {
            1
        } else if s@ == "low"@ {
            2
        } else {
            3
        },
        None => 3,
    }
}

/// The open specs of rank `r`, in order.
pub open spec fn by_rank(specs: Seq<SpecFile>, r: int) -> Seq<SpecFile> {
    flat_map(
        specs,
        |s: SpecFile|
            if is_open(s) && priority_rank(s.frontmatter.priority) == r {
                seq![s]
            } else {
                Seq::empty()
            },
    )
}

/// The open specs of ranks below `r`, rank by rank.
pub open spec fn ranks_below(specs: Seq<SpecFile>, r: int) -> Seq<SpecFile>
    decreases r,
{
    if r <= 0 {
        Seq::empty()
    } else {
        ranks_below(specs, r - 1) + by_rank(specs, r - 1)
    }
}

/// The open specs ordered by priority rank; specs of equal rank keep their order.
pub open spec fn priority_order(specs: Seq<SpecFile>) -> Seq<SpecFile> {
    ranks_below(specs, 4)
}

proof fn lemma_by_rank_has_rank(specs: Seq<SpecFile>, r: int)
    ensures
        forall|k: int|
            0 <= k < by_rank(specs, r).len() ==> priority_rank(
                (#[trigger] by_rank(specs, r)[k]).frontmatter.priority,
            ) == r,
    decreases specs.len(),
{
    if specs.len() > 0 {
        lemma_by_rank_has_rank(specs.drop_last(), r);
        let pre = by_rank(specs.drop_last(), r);
        assert forall|k: int| 0 <= k < by_rank(specs, r).len() implies priority_rank(
            (#[trigger] by_rank(specs, r)[k]).frontmatter.priority,
        ) == r by {
            if k < pre.len() {
                assert(by_rank(specs, r)[k] == pre[k]);
            }
        }
    }
}

proof fn lemma_ranks_below_ordered(specs: Seq<SpecFile>, r: int)
    ensures
        forall|k: int|
            0 <= k < ranks_below(specs, r).len() ==> priority_rank(
                (#[trigger] ranks_below(specs, r)[k]).frontmatter.priority,
            ) < r,
        forall|i: int, j: int|
            0 <= i < j < ranks_below(specs, r).len() ==> priority_rank(
                (#[trigger] ranks_below(specs, r)[i]).frontmatter.priority,
            ) <= priority_rank((#[trigger] ranks_below(specs, r)[j]).frontmatter.priority),
    decreases r,
{
    if r > 0 {
        lemma_ranks_below_ordered(specs, r - 1);
        lemma_by_rank_has_rank(specs, r - 1);
        let pre = ranks_below(specs, r - 1);
        let all = ranks_below(specs, r);
        assert(all == pre + by_rank(specs, r - 1));
        assert forall|k: int| 0 <= k < all.len() implies priority_rank(
            (#[trigger] all[k]).frontmatter.priority,
        ) < r by {
            if k < pre.len() {
                assert(all[k] == pre[k]);
            } else {
                assert(all[k] == by_rank(specs, r - 1)[k - pre.len()]);
            }
        }
        assert forall|i: int, j: int| 0 <= i < j < all.len() implies priority_rank(
            (#[trigger] all[i]).frontmatter.priority,
        ) <= priority_rank((#[trigger] all[j]).frontmatter.priority) by {
            if j < pre.len() {
                assert(all[i] == pre[i] && all[j] == pre[j]);
            } else if i < pre.len() {
                assert(all[i] == pre[i]);
                assert(all[j] == by_rank(specs, r - 1)[j - pre.len()]);
            } else {
                assert(all[i] == by_rank(specs, r - 1)[i - pre.len()]);
                assert(all[j] == by_rank(specs, r - 1)[j - pre.len()]);
            }
        }
    }
}

/// The spec's priority is `p`.
pub open spec fn has_priority(s: SpecFile, p: Seq<char>) -> bool {
    s.frontmatter.priority matches Some(q) && q@ == p
}

/// In the priorities list of `CONTEXT.md`, a spec of priority `high` is
/// preceded only by specs of priority `high`; one of priority `medium` only
/// by `high` or `medium` ones; one of priority `low` only by `high`,
/// `medium` or `low` ones. Specs of any other priority, or none, come last.
pub proof fn lemma_priorities_high_medium_low(specs: Seq<SpecFile>)
    ensures
        forall|i: int, j: int|
            0 <= i < j < priority_order(specs).len() && has_priority(
                #[trigger] priority_order(specs)[j],
                "high"@,
            ) ==> has_priority(#[trigger] priority_order(specs)[i], "high"@),
        forall|i: int, j: int|
            0 <= i < j < priority_order(specs).len() && has_priority(
                #[trigger] priority_order(specs)[j],
                "medium"@,
            ) ==> has_priority(#[trigger] priority_order(specs)[i], "high"@) || has_priority(
                priority_order(specs)[i],
                "medium"@,
            ),
        forall|i: int, j: int|
            0 <= i < j < priority_order(specs).len() && has_priority(
                #[trigger] priority_order(specs)[j],
                "low"@,
            ) ==> has_priority(#[trigger] priority_order(specs)[i], "high"@) || has_priority(
                priority_order(specs)[i],
                "medium"@,
            ) || has_priority(priority_order(specs)[i], "low"@),
{
    reveal_strlit("high");
    reveal_strlit("medium");
    reveal_strlit("low");
    assert("high"@.len() == 4 && "medium"@.len() == 6 && "low"@.len() == 3);
    lemma_ranks_below_ordered(specs, 4);
    let o = priority_order(specs);
    assert forall|x: SpecFile| #[trigger] has_priority(x, "high"@) implies priority_rank(
        x.frontmatter.priority,
    ) == 0 by {}
    assert forall|x: SpecFile| #[trigger] has_priority(x, "medium"@) implies priority_rank(
        x.frontmatter.priority,
    ) == 1 by {}
    assert forall|x: SpecFile| #[trigger] has_priority(x, "low"@) implies priority_rank(
        x.frontmatter.priority,
    ) == 2 by {}
    assert forall|x: SpecFile| priority_rank(#[trigger] x.frontmatter.priority) == 0 implies has_priority(
        x,
        "high"@,
    ) by {}
    assert forall|x: SpecFile| priority_rank(#[trigger] x.frontmatter.priority) == 1 implies has_priority(
        x,
        "medium"@,
    ) by {}
    assert forall|x: SpecFile| priority_rank(#[trigger] x.frontmatter.priority) == 2 implies has_priority(
        x,
        "low"@,
    ) by {}
    assert forall|i: int, j: int| 0 <= i < j < o.len() implies priority_rank(
        (#[trigger] o[i]).frontmatter.priority,
    ) <= priority_rank((#[trigger] o[j]).frontmatter.priority) by {}
}

/// The priority a spec shows: its own, or `none`.
pub open spec fn priority_label(s: SpecFile) -> Seq<char> {
    match s.frontmatter.priority {
        Some(p) => p@,
        None => "none"@,
    }
}

/// The `n`th line of the priorities list.
pub open spec fn priority_line(n: nat, s: SpecFile) -> Seq<char> {
    decimal(n) + ". ["@ + priority_label(s) + "] "@ + s.frontmatter.id@ + " - "@
        + s.frontmatter.title@ + "\n"@
}

/// The numbered lines of the priorities list.
pub open spec fn priority_lines(ps: Seq<SpecFile>) -> Seq<char>
    decreases ps.len(),
{
    if ps.len() == 0 {
        Seq::empty()
    } else {
        priority_lines(ps.drop_last()) + priority_line(ps.len(), ps.last())
    }
}

/// The text of `CONTEXT.md` for the given tracks, specs and decisions.
pub open spec fn context_text(
    tracks: Seq<TrackFile>,
    specs: Seq<SpecFile>,
    decisions: Seq<DecisionFile>,
) -> Seq<char> {
    let in_progress = in_progress_ids(specs);
    let blocked = blocked_ids(specs);
    let decision_lines = flat_map(decisions, |d: DecisionFile| decision_line(d));
    let order = priority_order(specs);
    "# Forja Project Context\n"@
        + "> Written by forja. Add `Read .forja/CONTEXT.md` to your agent instructions.\n\n"@
        + "## Active Work\n"@ + flat_map(tracks, |t: TrackFile| track_line(t)) + (if in_progress.len()
        > 0 {
        "- In-progress: "@ + join(in_progress, ", "@) + "\n"@
    } else {
        Seq::empty()
    }) + "- Blocked: "@ + (if blocked.len() > 0 {
        join(blocked, ", "@)
    } else {
        "none"@
    }) + "\n"@ + "\n"@ + (if decision_lines.len() > 0 {
        "## Key Decisions\n"@ + decision_lines + "\n"@
    } else {
        Seq::empty()
    }) + (if order.len() > 0 {
        "## Priorities\n"@ + priority_lines(order) + "\n"@
    } else {
        Seq::empty()
    })
}

fn push_track_lines(out: &mut String, tracks: &Vec<TrackFile>)
    ensures
        final(out)@ == old(out)@ + flat_map(tracks@, |t: TrackFile| track_line(t)),
{
    let ghost f = |t: TrackFile| track_line(t);
    let mut i: usize = 0;
    while i < tracks.len()
        invariant
            i <= tracks.len(),
            f == (|t: TrackFile| track_line(t)),
            out@ == old(out)@ + flat_map(tracks@.take(i as int), f),
        decreases tracks.len() - i,
    {
        proof {
            lemma_flat_map_take(tracks@, f, i as int);
        }
        let t = &tracks[i];
        let (done, total) = t.progress();
        push_str(out, "- Track: ");
        push_str(out, t.title());
        push_str(out, " (");
        push_str(out, decimal_string(done as u64).as_str());
        push_str(out, "/");
        push_str(out, decimal_string(total as u64).as_str());
        push_str(out, " done)\n");
        i = i + 1;
    }
    proof {
        lemma_flat_map_full(tracks@, f);
    }
}

/// The ids of the specs in progress (or, with `blocked`, of the blocked ones).
fn ids_with_status(specs: &Vec<SpecFile>, blocked: bool) -> (r: Vec<&str>)
    ensures
        strs(r@) == if blocked {
            blocked_ids(specs@)
        } else {
            in_progress_ids(specs@)
        },
{
    let ghost f = |s: SpecFile|
        if blocked {
            if s.status == SpecStatus::Blocked {
                seq![s.frontmatter.id@]
            } else {
                Seq::empty()
            }
        } else {
            if is_in_progress(s) {
                seq![s.frontmatter.id@]
            } else {
                Seq::empty()
            }
        };
    let mut r: Vec<&str> = Vec::new();
    let mut i: usize = 0;
    while i < specs.len()
        invariant
            i <= specs.len(),
            f == (|s: SpecFile|
                if blocked {
                    if s.status == SpecStatus::Blocked {
                        seq![s.frontmatter.id@]
                    } else {
                        Seq::empty()
                    }
                } else {
                    if is_in_progress(s) {
                        seq![s.frontmatter.id@]
                    } else {
                        Seq::empty()
                    }
                }),
            strs(r@) == flat_map(specs@.take(i as int), f),
        decreases specs.len() - i,
    {
        proof {
            lemma_flat_map_take(specs@, f, i as int);
        }
        let s = &specs[i];
        let wanted = if blocked {
            matches!(s.status, SpecStatus::Blocked)
        } else {
            matches!(s.status, SpecStatus::InProgress | SpecStatus::Executing)
        };
        let ghost before = r@;
        if wanted {
            r.push(s.id());
            assert(strs(r@) =~= strs(before) + seq![s.frontmatter.id@]);
        } else {
            assert(strs(r@) =~= strs(before) + Seq::<Seq<char>>::empty());
        }
        i = i + 1;
    }
    proof {
        lemma_flat_map_full(specs@, f);
        if blocked {
            assert(f =~= (|s: SpecFile|
                if s.status == SpecStatus::Blocked {
                    seq![s.frontmatter.id@]
                } else {
                    Seq::empty()
                }));
        } else {
            assert(f =~= (|s: SpecFile|
                if is_in_progress(s) {
                    seq![s.frontmatter.id@]
                } else {
                    Seq::empty()
                }));
        }
    }
    r
}

fn decision_lines(decisions: &Vec<DecisionFile>) -> (r: String)
    ensures
        r@ == flat_map(decisions@, |d: DecisionFile| decision_line(d)),
{
    let ghost f = |d: DecisionFile| decision_line(d);
    let mut out = String::new();
    let mut i: usize = 0;
    while i < decisions.len()
        invariant
            i <= decisions.len(),
            f == (|d: DecisionFile| decision_line(d)),
            out@ == flat_map(decisions@.take(i as int), f),
        decreases decisions.len() - i,
    {
        proof {
            lemma_flat_map_take(decisions@, f, i as int);
        }
        let d = &decisions[i];
        if matches!(d.frontmatter.status, DecisionStatus::Accepted) {
            push_str(&mut out, "- ");
            push_str(&mut out, d.title());
            push_str(&mut out, " (decision ");
            push_str(&mut out, d.id());
            push_str(&mut out, ")\n");
        } else {
            assert(out@ =~= out@ + Seq::<char>::empty());
        }
        i = i + 1;
    }
    proof {
        lemma_flat_map_full(decisions@, f);
    }
    out
}

/// The rank of a spec's priority.
fn rank_of(s: &SpecFile) -> (r: u8)
    ensures
        r == priority_rank(s.frontmatter.priority),
{
    match &s.frontmatter.priority {
        Some(p) => {
            if str_eq(p.as_str(), "high") {
                0
            } else if str_eq(p.as_str(), "medium") {
                1
            } else if str_eq(p.as_str(), "low") {
                2
            } else {
                3
            }
        },
        None => 3,
    }
}

/// The positions of the open specs, ordered by priority rank.
fn priority_positions(specs: &Vec<SpecFile>) -> (order: Vec<usize>)
    ensures
        forall|k: int| 0 <= k < order@.len() ==> order@[k] < specs@.len(),
        order@.map_values(|k: usize| specs@[k as int]) == priority_order(specs@),
{
    let mut order: Vec<usize> = Vec::new();
    let mut r: u8 = 0;
    while r < 4
        invariant
            r <= 4,
            forall|k: int| 0 <= k < order@.len() ==> order@[k] < specs@.len(),
            order@.map_values(|k: usize| specs@[k as int]) == ranks_below(specs@, r as int),
        decreases 4 - r,
    {
        let ghost f = |s: SpecFile|
            if is_open(s) && priority_rank(s.frontmatter.priority) == r as int {
                seq![s]
            } else {
                Seq::empty()
            };
        let ghost base = ranks_below(specs@, r as int);
        let mut i: usize = 0;
        while i < specs.len()
            invariant
                i <= specs.len(),
                r < 4,
                f == (|s: SpecFile|
                    if is_open(s) && priority_rank(s.frontmatter.priority) == r as int {
                        seq![s]
                    } else {
                        Seq::empty()
                    }),
                base == ranks_below(specs@, r as int),
                forall|k: int| 0 <= k < order@.len() ==> order@[k] < specs@.len(),
                order@.map_values(|k: usize| specs@[k as int]) == base + flat_map(
                    specs@.take(i as int),
                    f,
                ),
            decreases specs.len() - i,
        {
            proof {
                lemma_flat_map_take(specs@, f, i as int);
            }
            let s = &specs[i];
            let open = !matches!(
                s.status,
                SpecStatus::Done | SpecStatus::Complete | SpecStatus::Failed
            );
            let ghost before = order@;
            if open && rank_of(s) == r {
                order.push(i);
                assert(order@.map_values(|k: usize| specs@[k as int]) =~= before.map_values(
                    |k: usize| specs@[k as int],
                ).push(specs@[i as int]));
            }
            i = i + 1;
        }
        proof {
            lemma_flat_map_full(specs@, f);
        }
        r = r + 1;
    }
    order
}

fn priority_text(specs: &Vec<SpecFile>, order: &Vec<usize>) -> (r: String)
    requires
        forall|k: int| 0 <= k < order@.len() ==> order@[k] < specs@.len(),
    ensures
        r@ == priority_lines(order@.map_values(|k: usize| specs@[k as int])),
{
    let ghost ord = order@.map_values(|k: usize| specs@[k as int]);
    let mut out = String::new();
    let mut i: usize = 0;
    while i < order.len()
        invariant
            i <= order.len(),
            forall|k: int| 0 <= k < order@.len() ==> order@[k] < specs@.len(),
            ord == order@.map_values(|k: usize| specs@[k as int]),
            out@ == priority_lines(ord.take(i as int)),
        decreases order.len() - i,
    {
        let s = &specs[order[i]];
        assert(ord.take(i + 1).drop_last() =~= ord.take(i as int));
        push_str(&mut out, decimal_string((i + 1) as u64).as_str());
        push_str(&mut out, ". [");
        match &s.frontmatter.priority {
            Some(p) => push_str(&mut out, p.as_str()),
            None => push_str(&mut out, "none"),
        }
        push_str(&mut out, "] ");
        push_str(&mut out, s.id());
        push_str(&mut out, " - ");
        push_str(&mut out, s.title());
        push_str(&mut out, "\n");
        i = i + 1;
    }
    assert(ord.take(i as int) =~= ord);
    out
}

/// Generate the text of `CONTEXT.md`: active work (tracks with their
/// progress, specs in progress, blocked specs), the accepted decisions, and
/// the open specs ordered by priority (high, medium, low, then the rest;
/// specs of equal priority keep their order).
///
/// `tracks`, `specs` and `decisions` are what discovery found in
/// `.forja/tracks/`, `.forja/specs/` and `.forja/decisions/` (nothing, when a
/// directory is missing or cannot be read).
#[verifier::rlimit(40)]
pub fn generate_context(
    tracks: &Vec<TrackFile>,
    specs: &Vec<SpecFile>,
    decisions: &Vec<DecisionFile>,
) -> (r: String)
    ensures
        r@ == context_text(tracks@, specs@, decisions@),
{
    let mut out = String::new();
    push_str(&mut out, "# Forja Project Context\n");
    push_str(&mut out, "> Written by forja. Add `Read .forja/CONTEXT.md` to your agent instructions.\n\n");
    push_str(&mut out, "## Active Work\n");
    push_track_lines(&mut out, tracks);
    let in_progress = ids_with_status(specs, false);
    if in_progress.len() > 0 {
        push_str(&mut out, "- In-progress: ");
        push_str(&mut out, join_strs(&in_progress, ", ").as_str());
        push_str(&mut out, "\n");
    }
    let blocked = ids_with_status(specs, true);
    push_str(&mut out, "- Blocked: ");
    if blocked.len() > 0 {
        push_str(&mut out, join_strs(&blocked, ", ").as_str());
    } else {
        push_str(&mut out, "none");
    }
    push_str(&mut out, "\n");
    push_str(&mut out, "\n");
    let lines = decision_lines(decisions);
    if lines.as_str().is_empty() == false {
        push_str(&mut out, "## Key Decisions\n");
        push_str(&mut out, lines.as_str());
        push_str(&mut out, "\n");
    }
    let order = priority_positions(specs);
    if order.len() > 0 {
        push_str(&mut out, "## Priorities\n");
        push_str(&mut out, priority_text(specs, &order).as_str());
        push_str(&mut out, "\n");
    }
    assert(out@ =~= context_text(tracks@, specs@, decisions@));
    out
}

} // verus!
