//! The plans of a project, as the desktop app lists them.
use vstd::prelude::*;

use crate::models::plan::{PlanFile, PlanMetadata};
use crate::sorting::{char_codes, is_stable_sort, stable_sort_by_key, str_sort_key, SortKey};
use crate::text::{chars_of, concat2, contains, find_chars, owned, str_eq};

verus! {

impl SortKey for PlanFile {
    open spec fn key(&self) -> Seq<int> {
        char_codes(self.name@)
    }

    fn key_exec(&self) -> (k: Vec<u32>) {
        str_sort_key(self.name.as_str())
    }
}

/// A checkpoint file, not a plan: its name contains `.checkpoint.`.
pub open spec fn is_checkpoint(f: PlanFile) -> bool {
    contains(f.name@, ".checkpoint."@)
}

fn checkpoint_name(name: &str) -> (r: bool)
    ensures
        r == contains(name@, ".checkpoint."@),
{
    let nc = chars_of(name);
    let pat = chars_of(".checkpoint.");
    find_chars(&nc, &pat, 0).is_some()
}

/// The plan files that are not checkpoints, in order.
pub open spec fn plan_files(files: Seq<PlanFile>) -> Seq<PlanFile> {
    crate::seqs::flat_map(
        files,
        |f: PlanFile|
            if is_checkpoint(f) {
                Seq::empty()
            } else {
                seq![f]
            },
    )
}

/// The plans that could be loaded, in the order of the files, last first.
pub open spec fn loaded_newest_first(files: Seq<PlanFile>) -> Seq<PlanMetadata>
    decreases files.len(),
{
    if files.len() == 0 {
        Seq::empty()
    } else {
        (match files.last().plan {
            Some(p) => seq![p],
            None => Seq::empty(),
        }) + loaded_newest_first(files.drop_last())
    }
}

/// The plans of a project, newest first: the `.json` files of the plans
/// directory that are not checkpoints, sorted by name and read from the
/// last; files that cannot be loaded are passed over. `files` is `None`
/// when the directory does not exist.
pub fn list_plans(files: Option<Vec<PlanFile>>) -> (r: Vec<PlanMetadata>)
    ensures
        match files {
            None => r@.len() == 0,
            Some(v) => exists|sorted: Seq<PlanFile>|
                is_stable_sort(plan_files(v@), sorted) && r@ == loaded_newest_first(sorted),
        },
{
    let v = match files {
        None => {
            return Vec::new();
        },
        Some(v) => v,
    };
    let ghost v0 = v@;
    let ghost f = |f: PlanFile|
        if is_checkpoint(f) {
            Seq::empty()
        } else {
            seq![f]
        };
    let mut kept: Vec<PlanFile> = Vec::new();
    let mut v = v;
    let n = v.len();
    let mut i: usize = 0;
    assert(v0.skip(0) =~= v0);
    while v.len() > 0
        invariant
            i <= n,
            n == v0.len(),
            v@ == v0.skip(i as int),
            f == (|f: PlanFile|
                if is_checkpoint(f) {
                    Seq::empty()
                } else {
                    seq![f]
                }),
            kept@ == crate::seqs::flat_map(v0.take(i as int), f),
        decreases v.len(),
    {
        proof {
            crate::seqs::lemma_flat_map_take(v0, f, i as int);
        }
        assert(v@.len() == n - i);
        assert(v@[0] == v0[i as int]);
        let file = v.remove(0);
        assert(v0.skip(i + 1) =~= v0.skip(i as int).drop_first());
        let ghost before = kept@;
        if !checkpoint_name(file.name.as_str()) {
            kept.push(file);
            assert(kept@ =~= before + seq![file]);
        } else {
            assert(kept@ =~= before + Seq::<PlanFile>::empty());
        }
        i = i + 1;
    }
    proof {
        crate::seqs::lemma_flat_map_full(v0, f);
    }
    let sorted = stable_sort_by_key(kept);
    let ghost s0 = sorted@;
    let mut plans: Vec<PlanMetadata> = Vec::new();
    let mut rest = sorted;
    assert(s0.take(s0.len() as int) =~= s0);
    while rest.len() > 0
        invariant
            s0.len() >= rest@.len(),
            rest@ == s0.take(rest@.len() as int),
            loaded_newest_first(s0) == plans@ + loaded_newest_first(rest@),
        decreases rest.len(),
    {
        let ghost before = rest@;
        let file = rest.pop().unwrap();
        assert(rest@ =~= before.drop_last());
        assert(rest@ =~= s0.take(rest@.len() as int));
        let ghost p0 = plans@;
        match file.plan {
            Some(p) => {
                plans.push(p);
                assert(plans@ =~= p0 + seq![p]);
            },
            None => {},
        }
        assert(loaded_newest_first(before) == (match before.last().plan {
            Some(p) => seq![p],
            None => Seq::<PlanMetadata>::empty(),
        }) + loaded_newest_first(rest@));
    }
    assert(loaded_newest_first(rest@) =~= Seq::<PlanMetadata>::empty());
    assert(plans@ =~= loaded_newest_first(s0));
    plans
}

/// The first file, in the order read, that is not a checkpoint and loads
/// as the plan `plan_id`.
pub open spec fn is_first_with_id(files: Seq<PlanFile>, k: int, plan_id: Seq<char>) -> bool {
    &&& 0 <= k < files.len()
    &&& !is_checkpoint(files[k])
    &&& files[k].plan is Some
    &&& files[k].plan->0.id@ == plan_id
    &&& forall|j: int|
        0 <= j < k ==> !(!is_checkpoint(#[trigger] files[j]) && files[j].plan is Some
            && files[j].plan->0.id@ == plan_id)
}

/// The plan `plan_id` of a project: "plans directory not found" when the
/// directory does not exist (`files` is `None`), "plan not found: <id>"
/// when no plan file holds it.
pub fn get_plan(files: Option<Vec<PlanFile>>, plan_id: &str) -> (r: Result<PlanMetadata, String>)
    ensures
        match files {
            None => r is Err && r->Err_0@ == "plans directory not found"@,
            Some(v) => match r {
                Ok(p) => exists|k: int| is_first_with_id(v@, k, plan_id@) && v@[k].plan == Some(p),
                Err(m) => m@ == "plan not found: "@ + plan_id@ && forall|j: int|
                    0 <= j < v@.len() ==> !(!is_checkpoint(#[trigger] v@[j]) && v@[j].plan is Some
                        && v@[j].plan->0.id@ == plan_id@),
            },
        },
{
    let v = match files {
        None => {
            return Err(owned("plans directory not found"));
        },
        Some(v) => v,
    };
    let ghost v0 = v@;
    let mut v = v;
    let n = v.len();
    let mut i: usize = 0;
    assert(v0.skip(0) =~= v0);
    while v.len() > 0
        invariant
            i <= n,
            n == v0.len(),
            v@ == v0.skip(i as int),
            files is Some && files->0@ == v0,
            forall|j: int|
                0 <= j < i ==> !(!is_checkpoint(#[trigger] v0[j]) && v0[j].plan is Some
                    && v0[j].plan->0.id@ == plan_id@),
        decreases v.len(),
    {
        assert(v@.len() == n - i);
        assert(v@[0] == v0[i as int]);
        let file = v.remove(0);
        assert(v0.skip(i + 1) =~= v0.skip(i as int).drop_first());
        if !checkpoint_name(file.name.as_str()) {
            match file.plan {
                Some(p) => {
                    if str_eq(p.id.as_str(), plan_id) {
                        assert(is_first_with_id(v0, i as int, plan_id@));
                        return Ok(p);
                    }
                },
                None => {},
            }
        }
        i = i + 1;
    }
    Err(concat2("plan not found: ", plan_id))
}

} // verus!
