//! Selection state of the scan results: recommendations grouped by phase,
//! with checkboxes and a cursor.
use vstd::prelude::*;

use crate::scanner::matcher::{rec_view, RecView};
use crate::scanner::models::SkillRecommendation;
use crate::seqs::{flat_map, lemma_flat_map_full, lemma_flat_map_take};
use crate::text::{owned, str_eq};

verus! {

/// A single item of the scan results list.
#[derive(Debug, Clone)]
pub struct ScanItem {
    pub rec: SkillRecommendation,
    pub checked: bool,
    /// Already installed: its checkbox cannot change.
    pub locked: bool,
}

/// An item as plain values: recommendation, checked, locked.
pub type ItemView = (RecView, bool, bool);

/// A phase group as plain values: phase name and items.
pub type GroupView = (Seq<char>, Seq<ItemView>);

/// The plain values of an item.
pub open spec fn item_view(it: ScanItem) -> ItemView {
    (rec_view(it.rec), it.checked, it.locked)
}

/// The plain values of a group.
pub open spec fn group_view(g: (String, Vec<ScanItem>)) -> GroupView {
    (g.0@, g.1@.map_values(|it: ScanItem| item_view(it)))
}

/// The plain values of the groups.
pub open spec fn groups_view(gs: Seq<(String, Vec<ScanItem>)>) -> Seq<GroupView> {
    gs.map_values(|g: (String, Vec<ScanItem>)| group_view(g))
}

/// TUI state for the scan checkbox selection.
#[derive(Debug)]
pub struct ScanApp {
    /// `(phase name, items)`, one group per phase, in order of first appearance.
    pub groups: Vec<(String, Vec<ScanItem>)>,
    /// `(group index, item index)`.
    pub cursor: (usize, usize),
    pub should_install: bool,
    pub should_quit: bool,
    pub scroll_offset: usize,
    pub tech_count: usize,
}

/// The position of the group of `phase`, if any.
pub open spec fn group_pos(gs: Seq<GroupView>, phase: Seq<char>) -> Option<int>
    decreases gs.len(),
{
    if gs.len() == 0 {
        None
    } else {
        match group_pos(gs.drop_last(), phase) {
            Some(k) => Some(k),
            None => if gs.last().0 == phase {
                Some(gs.len() - 1)
            } else {
                None
            },
        }
    }
}

/// The item a recommendation becomes: checked unless installed, locked if installed.
pub open spec fn new_item(r: SkillRecommendation) -> ItemView {
    (rec_view(r), !r.installed, r.installed)
}

/// `gs` with an item added to the group of `phase` (a new group at the end
/// when there is none).
pub open spec fn add_item(gs: Seq<GroupView>, phase: Seq<char>, item: ItemView) -> Seq<GroupView> {
    match group_pos(gs, phase) {
        Some(k) => gs.update(k, (gs[k].0, gs[k].1.push(item))),
        None => gs.push((phase, seq![item])),
    }
}

/// The groups of the recommendations, in order; installed ones are left out
/// unless `show_installed`.
pub open spec fn grouped(recs: Seq<SkillRecommendation>, show_installed: bool) -> Seq<GroupView>
    decreases recs.len(),
{
    if recs.len() == 0 {
        Seq::empty()
    } else {
        let gs = grouped(recs.drop_last(), show_installed);
        let r = recs.last();
        if !show_installed && r.installed {
            gs
        } else {
            add_item(gs, r.phase@, new_item(r))
        }
    }
}

/// The number of items in the groups.
pub open spec fn total(gs: Seq<GroupView>) -> nat
    decreases gs.len(),
{
    if gs.len() == 0 {
        0
    } else {
        total(gs.drop_last()) + gs.last().1.len()
    }
}

/// The items of a group that are checked and not locked, in order.
pub open spec fn selected_in(items: Seq<ItemView>) -> Seq<ItemView> {
    flat_map(
        items,
        |it: ItemView|
            if it.1 && !it.2 {
                seq![it]
            } else {
                Seq::empty()
            },
    )
}

/// The items that are checked and not locked, in order.
pub open spec fn selected(gs: Seq<GroupView>) -> Seq<ItemView> {
    flat_map(gs, |g: GroupView| selected_in(g.1))
}

/// Every group has an item; the cursor is on an item when there are groups;
/// the items can be counted.
pub open spec fn well_formed(gs: Seq<GroupView>, cursor: (usize, usize)) -> bool {
    &&& forall|k: int| 0 <= k < gs.len() ==> #[trigger] gs[k].1.len() > 0
    &&& gs.len() > 0 ==> cursor.0 < gs.len() && cursor.1 < gs[cursor.0 as int].1.len()
    &&& total(gs) <= usize::MAX
}

/// `after` is `before` with the checkbox of every unlocked item set to `value`.
pub open spec fn all_unlocked_set(before: Seq<GroupView>, after: Seq<GroupView>, value: bool) -> bool {
    &&& after.len() == before.len()
    &&& forall|g: int|
        0 <= g < before.len() ==> #[trigger] after[g].0 == before[g].0 && after[g].1.len()
            == before[g].1.len()
    &&& forall|g: int, i: int|
        0 <= g < before.len() && 0 <= i < before[g].1.len() ==> #[trigger] after[g].1[i] == if before[g].1[i].2 {
            before[g].1[i]
        } else {
            (before[g].1[i].0, value, false)
        }
}

/// Where moving down puts the cursor: the next item of the group, else the
/// first item of the next group; it stays put on the very last item.
pub open spec fn cursor_down(gs: Seq<GroupView>, cursor: (usize, usize)) -> (usize, usize) {
    let (gi, ii) = cursor;
    if gs.len() == 0 {
        cursor
    } else if ii + 1 < gs[gi as int].1.len() {
        (gi, (ii + 1) as usize)
    } else if gi + 1 < gs.len() {
        ((gi + 1) as usize, 0usize)
    } else {
        cursor
    }
}

/// Where moving up puts the cursor: the previous item of the group, else the
/// last item of the previous group; it stays put on the very first item.
pub open spec fn cursor_up(gs: Seq<GroupView>, cursor: (usize, usize)) -> (usize, usize) {
    let (gi, ii) = cursor;
    if gs.len() == 0 {
        cursor
    } else if ii > 0 {
        (gi, (ii - 1) as usize)
    } else if gi > 0 {
        ((gi - 1) as usize, (gs[gi - 1].1.len() - 1) as usize)
    } else {
        cursor
    }
}

/// Where jumping to the next group puts the cursor: the first item of the
/// next group, wrapping to the first group.
pub open spec fn cursor_next_group(n_groups: nat, cursor: (usize, usize)) -> (usize, usize) {
    if n_groups == 0 {
        cursor
    } else if cursor.0 + 1 < n_groups {
        ((cursor.0 + 1) as usize, 0usize)
    } else {
        (0usize, 0usize)
    }
}

/// The groups after toggling the item under the cursor (unchanged when it is
/// locked or there are no items).
pub open spec fn toggled(gs: Seq<GroupView>, cursor: (usize, usize)) -> Seq<GroupView> {
    let (gi, ii) = cursor;
    if gs.len() == 0 || gs[gi as int].1[ii as int].2 {
        gs
    } else {
        let it = gs[gi as int].1[ii as int];
        gs.update(gi as int, (gs[gi as int].0, gs[gi as int].1.update(ii as int, (it.0, !it.1, it.2))))
    }
}

/// Toggling the same item twice gives back the selection it started from.
pub proof fn lemma_toggle_twice(gs: Seq<GroupView>, cursor: (usize, usize))
    requires
        well_formed(gs, cursor),
    ensures
        toggled(toggled(gs, cursor), cursor) == gs,
{
    let (gi, ii) = cursor;
    if gs.len() > 0 && !gs[gi as int].1[ii as int].2 {
        let once = toggled(gs, cursor);
        assert(once[gi as int].1[ii as int].2 == gs[gi as int].1[ii as int].2);
        assert(once[gi as int].1.update(ii as int, gs[gi as int].1[ii as int]) =~= gs[gi as int].1);
        assert(toggled(once, cursor) =~= gs);
    }
}

proof fn lemma_selected_in_bound(items: Seq<ItemView>)
    ensures
        selected_in(items).len() <= items.len(),
    decreases items.len(),
{
    if items.len() > 0 {
        lemma_selected_in_bound(items.drop_last());
    }
}

/// The items that are checked and not locked are never more than all the
/// items: whatever the state, `checked_count` is at most `total_items`.
pub proof fn lemma_selected_within_total(gs: Seq<GroupView>)
    ensures
        selected(gs).len() <= total(gs),
    decreases gs.len(),
{
    if gs.len() > 0 {
        lemma_selected_within_total(gs.drop_last());
        lemma_selected_in_bound(gs.last().1);
    }
}

/// `checked_count` and `selected_skill_ids` agree: there is one selected id
/// for each item counted.
pub proof fn lemma_count_matches_ids(gs: Seq<GroupView>)
    ensures
        selected(gs).map_values(|it: ItemView| it.0.0).len() == selected(gs).len(),
{
}

/// The items of a group that are not locked, in order.
pub open spec fn unlocked_in(items: Seq<ItemView>) -> Seq<ItemView> {
    flat_map(items, |it: ItemView| if !it.2 { seq![it] } else { Seq::empty() })
}

/// The items that are not locked, in order.
pub open spec fn unlocked(gs: Seq<GroupView>) -> Seq<ItemView> {
    flat_map(gs, |g: GroupView| unlocked_in(g.1))
}

proof fn lemma_select_items_count(before: Seq<ItemView>, after: Seq<ItemView>)
    requires
        after.len() == before.len(),
        forall|i: int|
            0 <= i < before.len() ==> #[trigger] after[i] == if before[i].2 {
                before[i]
            } else {
                (before[i].0, true, false)
            },
    ensures
        selected_in(after).len() == unlocked_in(before).len(),
    decreases before.len(),
{
    if before.len() > 0 {
        let n = before.len() - 1;
        assert forall|i: int| 0 <= i < n implies #[trigger] after.drop_last()[i] == if before.drop_last()[i].2 {
            before.drop_last()[i]
        } else {
            (before.drop_last()[i].0, true, false)
        } by {
            assert(after.drop_last()[i] == after[i]);
            assert(before.drop_last()[i] == before[i]);
        }
        lemma_select_items_count(before.drop_last(), after.drop_last());
        assert(after.last() == after[n]);
        assert(before.last() == before[n]);
    }
}

/// After "select all", the items that are checked and not locked are
/// exactly as many as the items that are not locked.
pub proof fn lemma_select_all_count(before: Seq<GroupView>, after: Seq<GroupView>)
    requires
        all_unlocked_set(before, after, true),
    ensures
        selected(after).len() == unlocked(before).len(),
    decreases before.len(),
{
    if before.len() > 0 {
        let n = before.len() - 1;
        let (b0, a0) = (before.drop_last(), after.drop_last());
        assert(all_unlocked_set(b0, a0, true)) by {
            assert forall|g: int| 0 <= g < b0.len() implies #[trigger] a0[g].0 == b0[g].0 && a0[g].1.len()
                == b0[g].1.len() by {
                assert(a0[g] == after[g] && b0[g] == before[g]);
            }
            assert forall|g: int, i: int| 0 <= g < b0.len() && 0 <= i < b0[g].1.len() implies #[trigger] a0[g].1[i]
                == if b0[g].1[i].2 {
                b0[g].1[i]
            } else {
                (b0[g].1[i].0, true, false)
            } by {
                assert(a0[g] == after[g] && b0[g] == before[g]);
            }
        }
        lemma_select_all_count(b0, a0);
        assert(after.last() == after[n]);
        assert(before.last() == before[n]);
        assert(after[n].0 == before[n].0);
        assert(after[n].1.len() == before[n].1.len());
        assert forall|i: int| 0 <= i < before[n].1.len() implies #[trigger] after[n].1[i] == if before[n].1[i].2 {
            before[n].1[i]
        } else {
            (before[n].1[i].0, true, false)
        } by {}
        lemma_select_items_count(before[n].1, after[n].1);
    }
}

/// Setting every unlocked checkbox to the same value twice changes nothing
/// the second time: "select all" (or "deselect all") done twice is done once.
pub proof fn lemma_set_all_twice(gs: Seq<GroupView>, once: Seq<GroupView>, twice: Seq<GroupView>, value: bool)
    requires
        all_unlocked_set(gs, once, value),
        all_unlocked_set(once, twice, value),
    ensures
        twice == once,
{
    assert forall|g: int| 0 <= g < once.len() implies #[trigger] twice[g] == once[g] by {
        assert(once[g].0 == gs[g].0);
        assert(twice[g].0 == once[g].0);
        assert(twice[g].1.len() == once[g].1.len());
        assert forall|i: int| 0 <= i < once[g].1.len() implies twice[g].1[i] == once[g].1[i] by {
            assert(twice[g].1[i] == if once[g].1[i].2 {
                once[g].1[i]
            } else {
                (once[g].1[i].0, value, false)
            });
            assert(once[g].1[i] == if gs[g].1[i].2 {
                gs[g].1[i]
            } else {
                (gs[g].1[i].0, value, false)
            });
        }
        assert(twice[g].1 =~= once[g].1);
    }
    assert(twice =~= once);
}

proof fn lemma_total_bound(gs: Seq<GroupView>, k: int)
    requires
        0 <= k < gs.len(),
    ensures
        gs[k].1.len() <= total(gs),
        total(gs.take(k)) + gs[k].1.len() <= total(gs),
    decreases gs.len(),
{
    if k < gs.len() - 1 {
        lemma_total_bound(gs.drop_last(), k);
        assert(gs.drop_last().take(k) =~= gs.take(k));
    } else {
        assert(gs.drop_last() =~= gs.take(k));
    }
}

proof fn lemma_total_same_lengths(a: Seq<GroupView>, b: Seq<GroupView>)
    requires
        a.len() == b.len(),
        forall|k: int| 0 <= k < a.len() ==> #[trigger] a[k].1.len() == b[k].1.len(),
    ensures
        total(a) == total(b),
    decreases a.len(),
{
    if a.len() > 0 {
        lemma_total_same_lengths(a.drop_last(), b.drop_last());
    }
}

proof fn lemma_add_item(gs: Seq<GroupView>, phase: Seq<char>, item: ItemView)
    ensures
        match group_pos(gs, phase) {
            Some(k) => 0 <= k < gs.len() && gs[k].0 == phase && forall|j: int|
                0 <= j < k ==> #[trigger] gs[j].0 != phase,
            None => forall|j: int| 0 <= j < gs.len() ==> #[trigger] gs[j].0 != phase,
        },
        total(add_item(gs, phase, item)) == total(gs) + 1,
    decreases gs.len(),
{
    if gs.len() == 0 {
        assert(add_item(gs, phase, item).drop_last() =~= gs);
    } else {
        lemma_add_item(gs.drop_last(), phase, item);
        assert(gs.last() == gs[gs.len() - 1]);
        assert forall|j: int| 0 <= j < gs.len() - 1 implies gs[j] == gs.drop_last()[j] by {}
        match group_pos(gs.drop_last(), phase) {
            Some(k) => {
                let pre = gs.drop_last();
                assert(add_item(gs, phase, item).drop_last() =~= add_item(pre, phase, item));
                assert(add_item(gs, phase, item).last() == gs.last());
            },
            None => {
                if gs.last().0 == phase {
                    assert(add_item(gs, phase, item).drop_last() =~= gs.drop_last());
                    assert(add_item(gs, phase, item).last().1.len() == gs.last().1.len() + 1);
                } else {
                    assert(add_item(gs, phase, item).drop_last() =~= gs);
                    assert(add_item(gs, phase, item).last().1.len() == 1);
                }
            },
        }
    }
}

impl ScanApp {
    /// The plain values of the groups.
    pub open spec fn view_groups(&self) -> Seq<GroupView> {
        groups_view(self.groups@)
    }

    /// The state's invariant.
    pub open spec fn wf(&self) -> bool {
        well_formed(self.view_groups(), self.cursor)
    }

    /// A new selection of the recommendations, grouped by phase in order of
    /// first appearance: items not installed are checked, installed ones
    /// are locked (and left out unless `show_installed`). The cursor starts
    /// on the first item.
    pub fn new(recommendations: Vec<SkillRecommendation>, show_installed: bool) -> (app: ScanApp)
        ensures
            app.wf(),
            app.view_groups() == grouped(recommendations@, show_installed),
            app.cursor == (0usize, 0usize),
            !app.should_install,
            !app.should_quit,
            app.scroll_offset == 0,
            app.tech_count == 0,
    {
        let ghost recs0 = recommendations@;
        let n = recommendations.len();
        let mut recs = recommendations;
        let mut groups: Vec<(String, Vec<ScanItem>)> = Vec::new();
        let mut i: usize = 0;
        assert(recs0.skip(0) =~= recs0);
        assert(groups_view(groups@) =~= Seq::<GroupView>::empty());
        while recs.len() > 0
            invariant
                i <= n,
                n == recs0.len(),
                recs@ == recs0.skip(i as int),
                groups_view(groups@) == grouped(recs0.take(i as int), show_installed),
                forall|k: int| 0 <= k < groups@.len() ==> #[trigger] groups@[k].1@.len() > 0,
                total(groups_view(groups@)) <= i,
            decreases recs.len(),
        {
            assert(recs@.len() == n - i);
            assert(recs@[0] == recs0[i as int]);
            let rec = recs.remove(0);
            assert(recs0.skip(i + 1) =~= recs0.skip(i as int).drop_first());
            assert(recs0.take(i + 1).drop_last() =~= recs0.take(i as int));
            assert(recs0.take(i + 1).last() == rec);
            if show_installed || !rec.installed {
                let ghost gv = groups_view(groups@);
                let ghost og = groups@;
                proof {
                    lemma_add_item(gv, rec.phase@, new_item(rec));
                }
                let mut k: usize = 0;
                while k < groups.len()
                    invariant
                        k <= groups@.len(),
                        gv == groups_view(groups@),
                        forall|j: int| 0 <= j < k ==> #[trigger] groups@[j].0@ != rec.phase@,
                    ensures
                        k <= groups@.len(),
                        forall|j: int| 0 <= j < k ==> #[trigger] groups@[j].0@ != rec.phase@,
                        k < groups@.len() ==> groups@[k as int].0@ == rec.phase@,
                    decreases groups.len() - k,
                {
                    if str_eq(groups[k].0.as_str(), rec.phase.as_str()) {
                        break;
                    }
                    k = k + 1;
                }
                let item = ScanItem { checked: !rec.installed, locked: rec.installed, rec };
                if k < groups.len() {
                    assert(group_pos(gv, item.rec.phase@) == Some(k as int)) by {
                        match group_pos(gv, item.rec.phase@) {
                            Some(kk) => {
                                if kk < k {
                                    assert(groups@[kk].0@ == gv[kk].0);
                                }
                                if kk > k {
                                    assert(gv[k as int].0 == groups@[k as int].0@);
                                }
                            },
                            None => {
                                assert(gv[k as int].0 == groups@[k as int].0@);
                            },
                        }
                    }
                    let ghost g0 = groups@;
                    groups[k].1.push(item);
                    assert(groups_view(groups@) =~= add_item(gv, item.rec.phase@, item_view(item)))
                        by {
                        assert(groups@[k as int].1@ =~= g0[k as int].1@.push(item));
                        assert(group_view(groups@[k as int]) == (gv[k as int].0, gv[k as int].1.push(
                            item_view(item),
                        ))) by {
                            assert(groups@[k as int].1@.map_values(|it: ScanItem| item_view(it))
                                =~= g0[k as int].1@.map_values(|it: ScanItem| item_view(it)).push(
                                item_view(item),
                            ));
                        }
                    }
                } else {
                    assert(group_pos(gv, item.rec.phase@) is None) by {
                        if group_pos(gv, item.rec.phase@) is Some {
                            let kk = group_pos(gv, item.rec.phase@)->0;
                            assert(groups@[kk].0@ == gv[kk].0);
                        }
                    }
                    let phase = owned(item.rec.phase.as_str());
                    let mut items: Vec<ScanItem> = Vec::new();
                    items.push(item);
                    let ghost g0 = groups@;
                    groups.push((phase, items));
                    assert(groups_view(groups@) =~= gv.push((phase@, seq![item_view(item)]))) by {
                        assert(group_view((phase, items)) == (phase@, seq![item_view(item)])) by {
                            assert(items@.map_values(|it: ScanItem| item_view(it)) =~= seq![
                                item_view(item),
                            ]);
                        }
                    }
                }
                assert(item_view(item) == new_item(item.rec));
                assert(forall|j: int| 0 <= j < groups@.len() ==> #[trigger] groups@[j].1@.len() > 0)
                    by {
                    assert forall|j: int| 0 <= j < groups@.len() implies #[trigger] groups@[j].1@.len()
                        > 0 by {
                        assert(groups_view(groups@)[j].1.len() == groups@[j].1@.len());
                        if j < gv.len() {
                            assert(gv[j].1.len() == og[j].1@.len());
                        }
                    }
                }
            }
            i = i + 1;
        }
        assert(recs0.take(i as int) =~= recs0);
        let app = ScanApp {
            groups,
            cursor: (0, 0),
            should_install: false,
            should_quit: false,
            scroll_offset: 0,
            tech_count: 0,
        };
        app
    }

    /// Whether there is nothing to select.
    pub fn is_empty(&self) -> (r: bool)
        ensures
            r == (self.groups@.len() == 0),
    {
        self.groups.len() == 0
    }

    /// The number of items.
    pub fn total_items(&self) -> (r: usize)
        requires
            self.wf(),
        ensures
            r == total(self.view_groups()),
    {
        let ghost gs = self.view_groups();
        let mut n: usize = 0;
        let mut g: usize = 0;
        while g < self.groups.len()
            invariant
                g <= self.groups@.len(),
                gs == self.view_groups(),
                total(gs) <= usize::MAX,
                n == total(gs.take(g as int)),
            decreases self.groups.len() - g,
        {
            proof {
                lemma_total_bound(gs, g as int);
                assert(gs.take(g + 1).drop_last() =~= gs.take(g as int));
                assert(gs[g as int].1.len() == self.groups@[g as int].1@.len());
            }
            n = n + self.groups[g].1.len();
            g = g + 1;
        }
        assert(gs.take(g as int) =~= gs);
        n
    }

    /// The items that are checked and not locked, with their skill ids.
    fn count_selected(&self) -> (r: Vec<&str>)
        ensures
            r@.map_values(|s: &str| s@) == selected(self.view_groups()).map_values(
                |it: ItemView| it.0.0,
            ),
    {
        let ghost gs = self.view_groups();
        let ghost fg = |g: GroupView| selected_in(g.1);
        let ghost fi = |it: ItemView|
            if it.1 && !it.2 {
                seq![it]
            } else {
                Seq::empty()
            };
        let mut r: Vec<&str> = Vec::new();
        let mut g: usize = 0;
        while g < self.groups.len()
            invariant
                g <= self.groups@.len(),
                gs == self.view_groups(),
                fg == (|g: GroupView| selected_in(g.1)),
                fi == (|it: ItemView|
                    if it.1 && !it.2 {
                        seq![it]
                    } else {
                        Seq::empty()
                    }),
                r@.map_values(|s: &str| s@) == flat_map(gs.take(g as int), fg).map_values(
                    |it: ItemView| it.0.0,
                ),
            decreases self.groups.len() - g,
        {
            proof {
                lemma_flat_map_take(gs, fg, g as int);
            }
            let items = &self.groups[g].1;
            let ghost iv = gs[g as int].1;
            assert(iv == items@.map_values(|it: ScanItem| item_view(it)));
            let ghost base = flat_map(gs.take(g as int), fg);
            let mut i: usize = 0;
            while i < items.len()
                invariant
                    i <= items@.len(),
                    iv == items@.map_values(|it: ScanItem| item_view(it)),
                    fi == (|it: ItemView|
                        if it.1 && !it.2 {
                            seq![it]
                        } else {
                            Seq::empty()
                        }),
                    r@.map_values(|s: &str| s@) == (base + flat_map(iv.take(i as int), fi)).map_values(
                        |it: ItemView| it.0.0,
                    ),
                decreases items.len() - i,
            {
                proof {
                    lemma_flat_map_take(iv, fi, i as int);
                }
                let it = &items[i];
                let ghost before = r@;
                assert(iv[i as int] == item_view(*it));
                if it.checked && !it.locked {
                    assert(fi(iv[i as int]) == seq![iv[i as int]]);
                    assert(flat_map(iv.take(i + 1), fi) == flat_map(iv.take(i as int), fi) + seq![
                        iv[i as int],
                    ]);
                    r.push(it.rec.skill_id.as_str());
                    let ghost x = base + flat_map(iv.take(i as int), fi);
                    assert(base + flat_map(iv.take(i + 1), fi) =~= x.push(iv[i as int]));
                    assert(r@.map_values(|s: &str| s@) =~= before.map_values(|s: &str| s@).push(
                        it.rec.skill_id@,
                    ));
                    assert(x.push(iv[i as int]).map_values(|it: ItemView| it.0.0) =~= x.map_values(
                        |it: ItemView| it.0.0,
                    ).push(iv[i as int].0.0));
                    assert(iv[i as int].0.0 == it.rec.skill_id@);
                    assert(r@.map_values(|s: &str| s@) =~= (base + flat_map(
                        iv.take(i + 1),
                        fi,
                    )).map_values(|it: ItemView| it.0.0));
                } else {
                    assert(fi(iv[i as int]) == Seq::<ItemView>::empty());
                    assert(flat_map(iv.take(i + 1), fi) =~= flat_map(iv.take(i as int), fi));
                    assert(r@.map_values(|s: &str| s@) =~= (base + flat_map(
                        iv.take(i + 1),
                        fi,
                    )).map_values(|it: ItemView| it.0.0));
                }
                i = i + 1;
            }
            proof {
                lemma_flat_map_full(iv, fi);
                assert(base + flat_map(iv, fi) == flat_map(gs.take(g + 1), fg));
            }
            g = g + 1;
        }
        proof {
            lemma_flat_map_full(gs, fg);
        }
        r
    }

    /// The number of items that are checked and not locked.
    pub fn checked_count(&self) -> (r: usize)
        ensures
            r == selected(self.view_groups()).len(),
            r <= total(self.view_groups()),
    {
        proof {
            lemma_selected_within_total(self.view_groups());
        }
        let v = self.count_selected();
        assert(v@.map_values(|s: &str| s@).len() == v@.len());
        v.len()
    }

    /// The skill ids of the items that are checked and not locked, in order.
    pub fn selected_skill_ids(&self) -> (r: Vec<String>)
        ensures
            r@.map_values(|s: String| s@) == selected(self.view_groups()).map_values(
                |it: ItemView| it.0.0,
            ),
    {
        let ids = self.count_selected();
        crate::seqs::to_owned_all(&ids)
    }

    /// Move the cursor down: to the next item of the group, else to the
    /// first item of the next group; it stays put on the very last item.
    pub fn move_down(&mut self)
        requires
            old(self).wf(),
        ensures
            final(self).wf(),
            final(self).groups == old(self).groups,
            final(self).should_install == old(self).should_install,
            final(self).should_quit == old(self).should_quit,
            final(self).scroll_offset == old(self).scroll_offset,
            final(self).tech_count == old(self).tech_count,
            final(self).cursor == cursor_down(old(self).view_groups(), old(self).cursor),
    {
        if self.groups.len() == 0 {
            return;
        }
        let (gi, ii) = self.cursor;
        let group_len = self.groups[gi].1.len();
        assert(self.view_groups()[gi as int].1.len() == group_len);
        if ii + 1 < group_len {
            self.cursor = (gi, ii + 1);
        } else if gi + 1 < self.groups.len() {
            self.cursor = (gi + 1, 0);
            assert(self.view_groups()[gi + 1].1.len() > 0);
        }
    }

    /// Move the cursor up: to the previous item of the group, else to the
    /// last item of the previous group; it stays put on the very first item.
    pub fn move_up(&mut self)
        requires
            old(self).wf(),
        ensures
            final(self).wf(),
            final(self).groups == old(self).groups,
            final(self).should_install == old(self).should_install,
            final(self).should_quit == old(self).should_quit,
            final(self).scroll_offset == old(self).scroll_offset,
            final(self).tech_count == old(self).tech_count,
            final(self).cursor == cursor_up(old(self).view_groups(), old(self).cursor),
    {
        if self.groups.len() == 0 {
            return;
        }
        let (gi, ii) = self.cursor;
        if ii > 0 {
            self.cursor = (gi, ii - 1);
        } else if gi > 0 {
            let prev_len = self.groups[gi - 1].1.len();
            assert(self.view_groups()[gi - 1].1.len() == prev_len);
            assert(prev_len > 0);
            self.cursor = (gi - 1, prev_len - 1);
        }
    }

    /// Jump to the first item of the next group, wrapping to the first group.
    pub fn jump_next_group(&mut self)
        requires
            old(self).wf(),
        ensures
            final(self).wf(),
            final(self).groups == old(self).groups,
            final(self).should_install == old(self).should_install,
            final(self).should_quit == old(self).should_quit,
            final(self).scroll_offset == old(self).scroll_offset,
            final(self).tech_count == old(self).tech_count,
            final(self).cursor == cursor_next_group(old(self).groups@.len(), old(self).cursor),
    {
        if self.groups.len() == 0 {
            return;
        }
        let (gi, _) = self.cursor;
        if gi + 1 < self.groups.len() {
            self.cursor = (gi + 1, 0);
            assert(self.view_groups()[gi + 1].1.len() > 0);
        } else {
            self.cursor = (0, 0);
            assert(self.view_groups()[0].1.len() > 0);
        }
    }

    /// Toggle the checkbox of the item under the cursor, unless it is locked.
    pub fn toggle(&mut self)
        requires
            old(self).wf(),
        ensures
            final(self).wf(),
            final(self).cursor == old(self).cursor,
            final(self).should_install == old(self).should_install,
            final(self).should_quit == old(self).should_quit,
            final(self).scroll_offset == old(self).scroll_offset,
            final(self).tech_count == old(self).tech_count,
            final(self).view_groups() == toggled(old(self).view_groups(), old(self).cursor),
    {
        if self.groups.len() == 0 {
            return;
        }
        let (gi, ii) = self.cursor;
        let ghost gs = self.view_groups();
        let ghost g0 = self.groups@;
        assert(gs[gi as int].1.len() == self.groups@[gi as int].1@.len());
        if !self.groups[gi].1[ii].locked {
            let v = !self.groups[gi].1[ii].checked;
            self.groups[gi].1[ii].checked = v;
            proof {
                let it = gs[gi as int].1[ii as int];
                let expected = gs.update(
                    gi as int,
                    (gs[gi as int].0, gs[gi as int].1.update(ii as int, (it.0, !it.1, it.2))),
                );
                assert(self.groups@[gi as int].1@ =~= g0[gi as int].1@.update(
                    ii as int,
                    self.groups@[gi as int].1@[ii as int],
                ));
                assert(self.groups@[gi as int].1@.map_values(|it: ScanItem| item_view(it))
                    =~= gs[gi as int].1.update(ii as int, (it.0, !it.1, it.2)));
                assert(self.view_groups() =~= expected);
                lemma_total_same_lengths(gs, self.view_groups());
            }
        }
    }

    /// Check (`value`) or uncheck every item that is not locked.
    fn set_all(&mut self, value: bool)
        requires
            old(self).wf(),
        ensures
            final(self).wf(),
            final(self).cursor == old(self).cursor,
            final(self).should_install == old(self).should_install,
            final(self).should_quit == old(self).should_quit,
            final(self).scroll_offset == old(self).scroll_offset,
            final(self).tech_count == old(self).tech_count,
            all_unlocked_set(old(self).view_groups(), final(self).view_groups(), value),
    {
        let ghost gs = self.view_groups();
        let mut g: usize = 0;
        while g < self.groups.len()
            invariant
                g <= self.groups@.len(),
                self.groups@.len() == gs.len(),
                gs == old(self).view_groups(),
                self.cursor == old(self).cursor,
                self.should_install == old(self).should_install,
                self.should_quit == old(self).should_quit,
                self.scroll_offset == old(self).scroll_offset,
                self.tech_count == old(self).tech_count,
                forall|h: int|
                    #![trigger self.view_groups()[h]]
                    0 <= h < gs.len() ==> self.view_groups()[h].0 == gs[h].0
                        && self.view_groups()[h].1.len() == gs[h].1.len(),
                forall|h: int, i: int|
                    0 <= h < gs.len() && 0 <= i < gs[h].1.len() ==> #[trigger] self.view_groups()[h].1[i]
                        == if h < g && !gs[h].1[i].2 {
                        (gs[h].1[i].0, value, false)
                    } else {
                        gs[h].1[i]
                    },
            decreases self.groups.len() - g,
        {
            let n = self.groups[g].1.len();
            assert(self.view_groups()[g as int].0 == gs[g as int].0);
            assert(self.view_groups()[g as int].1.len() == n);
            let mut i: usize = 0;
            while i < n
                invariant
                    g < self.groups@.len(),
                    i <= n,
                    n == gs[g as int].1.len(),
                    n == self.groups@[g as int].1@.len(),
                    self.groups@.len() == gs.len(),
                    gs == old(self).view_groups(),
                    self.cursor == old(self).cursor,
                    self.should_install == old(self).should_install,
                    self.should_quit == old(self).should_quit,
                    self.scroll_offset == old(self).scroll_offset,
                    self.tech_count == old(self).tech_count,
                    forall|h: int|
                        #![trigger self.view_groups()[h]]
                        0 <= h < gs.len() ==> self.view_groups()[h].0 == gs[h].0
                            && self.view_groups()[h].1.len() == gs[h].1.len(),
                    forall|h: int, j: int|
                        0 <= h < gs.len() && 0 <= j < gs[h].1.len() ==> #[trigger] self.view_groups()[h].1[j]
                            == if (h < g || (h == g && j < i)) && !gs[h].1[j].2 {
                            (gs[h].1[j].0, value, false)
                        } else {
                            gs[h].1[j]
                        },
                decreases n - i,
            {
                let ghost before = self.groups@;
                let ghost bv = self.view_groups();
                assert(bv[g as int].1[i as int] == item_view(before[g as int].1@[i as int]));
                assert(bv[g as int].1[i as int] == gs[g as int].1[i as int]);
                if !self.groups[g].1[i].locked {
                    self.groups[g].1[i].checked = value;
                    assert forall|h: int|
                        #![trigger self.view_groups()[h]]
                        0 <= h < gs.len() implies self.view_groups()[h].0 == gs[h].0
                            && self.view_groups()[h].1.len() == gs[h].1.len() by {
                        assert(bv[h].0 == gs[h].0);
                        if h == g {
                            assert(self.groups@[h].1@.len() == before[h].1@.len());
                            assert(self.groups@[h].0 == before[h].0);
                        } else {
                            assert(self.groups@[h] == before[h]);
                        }
                    }
                    assert forall|h: int, j: int|
                        0 <= h < gs.len() && 0 <= j < gs[h].1.len() implies #[trigger] self.view_groups()[h].1[j]
                        == if (h < g || (h == g && j < i + 1)) && !gs[h].1[j].2 {
                        (gs[h].1[j].0, value, false)
                    } else {
                        gs[h].1[j]
                    } by {
                        assert(bv[h].1[j] == if (h < g || (h == g && j < i)) && !gs[h].1[j].2 {
                            (gs[h].1[j].0, value, false)
                        } else {
                            gs[h].1[j]
                        });
                        assert(bv[h].1.len() == gs[h].1.len());
                        if h == g {
                            if j != i {
                                assert(self.groups@[h].1@[j] == before[h].1@[j]);
                            }
                        } else {
                            assert(self.groups@[h] == before[h]);
                        }
                    }
                } else {
                    assert forall|h: int, j: int|
                        0 <= h < gs.len() && 0 <= j < gs[h].1.len() implies #[trigger] self.view_groups()[h].1[j]
                        == if (h < g || (h == g && j < i + 1)) && !gs[h].1[j].2 {
                        (gs[h].1[j].0, value, false)
                    } else {
                        gs[h].1[j]
                    } by {
                        assert(bv[h].1.len() == gs[h].1.len());
                    }
                }
                i = i + 1;
            }
            assert forall|h: int, j: int|
                0 <= h < gs.len() && 0 <= j < gs[h].1.len() implies #[trigger] self.view_groups()[h].1[j]
                == if h < g + 1 && !gs[h].1[j].2 {
                (gs[h].1[j].0, value, false)
            } else {
                gs[h].1[j]
            } by {
                assert(self.view_groups()[h].1.len() == gs[h].1.len());
            }
            g = g + 1;
        }
        proof {
            let nv = self.view_groups();
            assert forall|k: int| 0 <= k < gs.len() implies #[trigger] gs[k].1.len() == nv[k].1.len() by {
                assert(nv[k].0 == gs[k].0);
            }
            lemma_total_same_lengths(gs, nv);
            assert forall|k: int| 0 <= k < nv.len() implies #[trigger] nv[k].1.len() > 0 by {
                assert(nv[k].0 == gs[k].0);
                assert(gs[k].1.len() > 0);
            }
            if nv.len() > 0 {
                assert(nv[self.cursor.0 as int].0 == gs[self.cursor.0 as int].0);
            }
            assert forall|h: int| 0 <= h < gs.len() implies #[trigger] nv[h].0 == gs[h].0 && nv[h].1.len()
                == gs[h].1.len() by {
                assert(nv[h].0 == gs[h].0);
            }
        }
    }

    /// Check every item that is not locked.
    pub fn select_all(&mut self)
        requires
            old(self).wf(),
        ensures
            final(self).wf(),
            final(self).cursor == old(self).cursor,
            final(self).should_install == old(self).should_install,
            final(self).should_quit == old(self).should_quit,
            final(self).scroll_offset == old(self).scroll_offset,
            final(self).tech_count == old(self).tech_count,
            all_unlocked_set(old(self).view_groups(), final(self).view_groups(), true),
            selected(final(self).view_groups()).len() == unlocked(old(self).view_groups()).len(),
    {
        self.set_all(true);
        proof {
            lemma_select_all_count(old(self).view_groups(), self.view_groups());
        }
    }

    /// Uncheck every item that is not locked.
    pub fn deselect_all(&mut self)
        requires
            old(self).wf(),
        ensures
            final(self).wf(),
            final(self).cursor == old(self).cursor,
            final(self).should_install == old(self).should_install,
            final(self).should_quit == old(self).should_quit,
            final(self).scroll_offset == old(self).scroll_offset,
            final(self).tech_count == old(self).tech_count,
            all_unlocked_set(old(self).view_groups(), final(self).view_groups(), false),
    {
        self.set_all(false);
    }

    /// Confirm the selection: mark it for installation.
    pub fn confirm(&mut self)
        ensures
            final(self).should_install,
            final(self).groups == old(self).groups,
            final(self).cursor == old(self).cursor,
            final(self).should_quit == old(self).should_quit,
            final(self).scroll_offset == old(self).scroll_offset,
            final(self).tech_count == old(self).tech_count,
    {
        self.should_install = true;
    }
}

} // verus!
