//! Skill usage analytics: a capped log of usage events.
use vstd::prelude::*;

use crate::models::plan::now_rfc3339;
use crate::text::owned;

verus! {

/// The most events the log keeps; older ones are dropped first.
pub const MAX_EVENTS: usize = 10000;

/// One use of a skill: which skill, by which command, and when (RFC 3339).
#[derive(Debug, Clone)]
pub struct AnalyticsEvent {
    pub skill_id: String,
    pub command: String,
    pub timestamp: String,
}

/// The log after appending `event` and dropping the oldest events beyond
/// `MAX_EVENTS`.
pub open spec fn capped_append(events: Seq<AnalyticsEvent>, event: AnalyticsEvent) -> Seq<
    AnalyticsEvent,
> {
    let all = events.push(event);
    if all.len() > MAX_EVENTS {
        all.skip(all.len() - MAX_EVENTS)
    } else {
        all
    }
}

/// The log never holds more than `MAX_EVENTS` events, its newest event is
/// the one just appended, and the events it keeps are the newest ones, in
/// order.
pub proof fn lemma_capped_append(events: Seq<AnalyticsEvent>, event: AnalyticsEvent)
    ensures
        capped_append(events, event).len() <= MAX_EVENTS,
        capped_append(events, event).last() == event,
        capped_append(events, event) == events.push(event).skip(
            events.len() + 1 - capped_append(events, event).len(),
        ),
{
    let all = events.push(event);
    if all.len() <= MAX_EVENTS {
        assert(all.skip(0) =~= all);
    }
}

/// Append `event` to the log, keeping at most `MAX_EVENTS` (the newest).
pub fn append_event(events: Vec<AnalyticsEvent>, event: AnalyticsEvent) -> (r: Vec<AnalyticsEvent>)
    requires
        events@.len() < usize::MAX,
    ensures
        r@ == capped_append(events@, event),
{
    let ghost all = events@.push(event);
    let mut events = events;
    events.push(event);
    if events.len() > MAX_EVENTS {
        let excess = events.len() - MAX_EVENTS;
        let mut rest = events;
        let mut i: usize = 0;
        while i < excess
            invariant
                i <= excess,
                excess == all.len() - MAX_EVENTS,
                rest@ == all.skip(i as int),
            decreases excess - i,
        {
            assert(rest@.len() == all.len() - i);
            let _ = rest.remove(0);
            assert(all.skip(i + 1) =~= all.skip(i as int).drop_first());
            i = i + 1;
        }
        rest
    } else {
        events
    }
}

/// Record a use of `skill_id` by `command`, stamped with the current time.
pub fn record_event(events: Vec<AnalyticsEvent>, skill_id: &str, command: &str) -> (r: Vec<
    AnalyticsEvent,
>)
    requires
        events@.len() < usize::MAX,
    ensures
        r@.len() == if events@.len() + 1 > MAX_EVENTS {
            MAX_EVENTS as int
        } else {
            events@.len() + 1int
        },
        r@.last().skill_id@ == skill_id@,
        r@.last().command@ == command@,
        r@.drop_last() == if events@.len() + 1 > MAX_EVENTS {
            events@.skip(events@.len() + 1 - MAX_EVENTS)
        } else {
            events@
        },
{
    let event = AnalyticsEvent {
        skill_id: owned(skill_id),
        command: owned(command),
        timestamp: now_rfc3339(),
    };
    let ghost e0 = events@;
    let r = append_event(events, event);
    proof {
        let all = e0.push(event);
        if all.len() > MAX_EVENTS {
            assert(all.skip(all.len() - MAX_EVENTS).drop_last() =~= e0.skip(e0.len() + 1 - MAX_EVENTS));
        } else {
            assert(all.drop_last() =~= e0);
        }
    }
    r
}

} // verus!
