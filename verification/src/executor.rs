//! The preview/apply schedule over a finished plan.
//!
//! Once every file's stem is planned, the run turns the plan into a flat
//! list of actions: every entry is announced (one `old -> new` line), and
//! in apply mode each announcement is followed by exactly one rename of
//! that entry. Preview mode schedules no rename at all, so it can never
//! touch the filesystem; the caller performs the actions in order and
//! stops the run on the first rename that fails.
use crate::strutil::push_char;
use vstd::prelude::*;

verus! {

/// One planned rename: the path as it is and the path it becomes.
pub struct PlanEntry {
    pub old_path: String,
    pub new_path: String,
}

/// One step of carrying a plan out.
pub enum RenameAction {
    /// Report the pair on standard output.
    Announce { old_path: String, new_path: String },
    /// Rename the file; failure is fatal to the run.
    Rename { old_path: String, new_path: String },
}

/// The actions one entry contributes.
pub open spec fn spec_entry_actions(e: PlanEntry, apply: bool) -> Seq<RenameAction> {
    if apply {
        seq![
            (RenameAction::Announce { old_path: e.old_path, new_path: e.new_path }),
            (RenameAction::Rename { old_path: e.old_path, new_path: e.new_path }),
        ]
    } else {
        seq![(RenameAction::Announce { old_path: e.old_path, new_path: e.new_path })]
    }
}

/// The full schedule of a plan, in plan order.
pub open spec fn spec_actions(entries: Seq<PlanEntry>, apply: bool) -> Seq<RenameAction>
    decreases entries.len(),
{
    if entries.len() == 0 {
        Seq::empty()
    } else {
        spec_entry_actions(entries[0], apply) + spec_actions(entries.drop_first(), apply)
    }
}

proof fn lemma_actions_snoc(es: Seq<PlanEntry>, e: PlanEntry, apply: bool)
    ensures
        spec_actions(es.push(e), apply) == spec_actions(es, apply) + spec_entry_actions(e, apply),
    decreases es.len(),
{
    if es.len() == 0 {
        reveal_with_fuel(spec_actions, 2);
        assert(es.push(e)[0] == e);
        assert(es.push(e).drop_first() =~= Seq::<PlanEntry>::empty());
        assert(spec_actions(es.push(e), apply) =~= spec_actions(es, apply) + spec_entry_actions(
            e,
            apply,
        ));
    } else {
        assert(es.push(e)[0] == es[0]);
        assert(es.push(e).drop_first() =~= es.drop_first().push(e));
        lemma_actions_snoc(es.drop_first(), e, apply);
        assert(spec_actions(es.push(e), apply) =~= spec_actions(es, apply) + spec_entry_actions(
            e,
            apply,
        ));
    }
}

/// Expands a finished plan into its schedule.
pub fn rename_actions(plan: &Vec<PlanEntry>, apply: bool) -> (r: Vec<RenameAction>)
    ensures
        r@ == spec_actions(plan@, apply),
{
    let n = plan.len();
    let mut out: Vec<RenameAction> = Vec::new();
    let mut i: usize = 0;
    proof {
        assert(plan@.take(0) =~= Seq::<PlanEntry>::empty());
    }
    while i < n
        invariant
            n == plan@.len(),
            0 <= i <= n,
            out@ == spec_actions(plan@.take(i as int), apply),
        decreases n - i,
    {
        let old_path = plan[i].old_path.clone();
        let new_path = plan[i].new_path.clone();
        out.push(RenameAction::Announce { old_path, new_path });
        if apply {
            let old_path = plan[i].old_path.clone();
            let new_path = plan[i].new_path.clone();
            out.push(RenameAction::Rename { old_path, new_path });
        }
        proof {
            lemma_actions_snoc(plan@.take(i as int), plan@[i as int], apply);
            assert(plan@.take(i as int + 1) =~= plan@.take(i as int).push(plan@[i as int]));
            assert(out@ =~= spec_actions(plan@.take(i as int), apply) + spec_entry_actions(
                plan@[i as int],
                apply,
            ));
        }
        i += 1;
    }
    proof {
        assert(plan@.take(n as int) =~= plan@);
    }
    out
}

/// Preview mode mutates nothing: its schedule announces each entry once,
/// in order, and contains no rename at all.
pub proof fn lemma_preview_only_announces(entries: Seq<PlanEntry>)
    ensures
        spec_actions(entries, false).len() == entries.len(),
        forall|k: int|
            0 <= k < entries.len() ==> spec_actions(entries, false)[k] == (RenameAction::Announce {
                old_path: entries[k].old_path,
                new_path: entries[k].new_path,
            }),
    decreases entries.len(),
{
    if entries.len() > 0 {
        lemma_preview_only_announces(entries.drop_first());
    }
}

/// Apply mode renames every entry exactly once: the schedule announces
/// and then renames each entry, in plan order.
pub proof fn lemma_apply_renames_each_once(entries: Seq<PlanEntry>)
    ensures
        spec_actions(entries, true).len() == 2 * entries.len(),
        forall|k: int|
            0 <= k < entries.len() ==> spec_actions(entries, true)[2 * k]
                == (RenameAction::Announce {
                old_path: entries[k].old_path,
                new_path: entries[k].new_path,
            }),
        forall|k: int|
            0 <= k < entries.len() ==> spec_actions(entries, true)[2 * k + 1]
                == (RenameAction::Rename {
                old_path: entries[k].old_path,
                new_path: entries[k].new_path,
            }),
    decreases entries.len(),
{
    if entries.len() > 0 {
        lemma_apply_renames_each_once(entries.drop_first());
        assert forall|k: int| 0 <= k < entries.len() implies spec_actions(entries, true)[2 * k]
            == (RenameAction::Announce {
            old_path: entries[k].old_path,
            new_path: entries[k].new_path,
        }) && spec_actions(entries, true)[2 * k + 1] == (RenameAction::Rename {
            old_path: entries[k].old_path,
            new_path: entries[k].new_path,
        }) by {
            if k > 0 {
                assert(entries.drop_first()[k - 1] == entries[k]);
                assert(spec_actions(entries, true)[2 * k] == spec_actions(
                    entries.drop_first(),
                    true,
                )[2 * (k - 1)]);
                assert(spec_actions(entries, true)[2 * k + 1] == spec_actions(
                    entries.drop_first(),
                    true,
                )[2 * (k - 1) + 1]);
            }
        }
    }
}

/// The full new file name of an entry: the synthesized stem, a dot, and
/// the original extension.
pub fn new_file_name(stem: &String, ext: &String) -> (r: String)
    ensures
        r@ == stem@ + seq!['.'] + ext@,
{
    let mut out = stem.clone();
    push_char(&mut out, '.');
    out.append(ext.as_str());
    proof {
        assert(out@ =~= stem@ + seq!['.'] + ext@);
    }
    out
}

} // verus!
