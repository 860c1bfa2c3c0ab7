use vstd::prelude::*;

use crate::text::hash_bytes;
use crate::types::consolidated_block::{ConsolidatedBlock, DepositModel};

verus! {

/// The deposits of a block, to be stored after those already stored.
pub struct ConsolidatedDeposits {
    deposits: Vec<DepositModel>,
}

/// What storing the deposits came to: the new number of stored deposits and, where a
/// deposit could not be stored, the error that stopped the storing.
pub struct DepositsSaved {
    pub count: u64,
    pub error: Option<String>,
}

impl ConsolidatedDeposits {
    pub closed spec fn deposits(&self) -> Seq<DepositModel> {
        self.deposits@
    }

    /// The deposits of the block, as they are stored.
    pub fn from_block(block: &ConsolidatedBlock) -> (d: Self)
        ensures
            d.deposits().len() == block.deposits@.len(),
            forall|i: int|
                0 <= i < d.deposits().len() ==> {
                    &&& #[trigger] d.deposits()[i].slot == block.slot
                    &&& d.deposits()[i].public_key@ == block.deposits@[i].pubkey@
                    &&& d.deposits()[i].withdrawal_credentials@ == hash_bytes(block.deposits@[i].withdrawal_credentials)
                    &&& d.deposits()[i].amount == block.deposits@[i].amount
                    &&& d.deposits()[i].signature@ == block.deposits@[i].signature@
                },
    {
        ConsolidatedDeposits { deposits: block.to_deposit_models() }
    }

    /// The deposits with their ids: they follow the `init_count` already stored.
    pub fn numbered(self, init_count: u64) -> (v: Vec<(u64, DepositModel)>)
        requires
            init_count + self.deposits().len() <= u64::MAX,
        ensures
            v@.len() == self.deposits().len(),
            forall|i: int| 0 <= i < v@.len() ==> (#[trigger] v@[i]).0 == init_count + i && v@[i].1 == self.deposits()[i],
    {
        let ghost all = self.deposits@;
        let mut rest = self.deposits;
        let mut v: Vec<(u64, DepositModel)> = Vec::new();
        let mut id = init_count;
        while rest.len() > 0
            invariant
                v@.len() + rest@.len() == all.len(),
                rest@ == all.subrange(v@.len() as int, all.len() as int),
                id == init_count + v@.len(),
                init_count + all.len() <= u64::MAX,
                forall|i: int| 0 <= i < v@.len() ==> (#[trigger] v@[i]).0 == init_count + i && v@[i].1 == all[i],
            decreases rest@.len(),
        {
            let d = rest.remove(0);
            v.push((id, d));
            proof {
                assert(rest@ =~= all.subrange(v@.len() as int, all.len() as int));
            }
            id = id + 1;
        }
        v
    }
}

/// Where the storing of a block's deposits stands: the numbered deposits not yet handed
/// out to be saved, the count stored before, how many saves succeeded, whether a save
/// is under way, and the error of the save that failed, if one did.
pub struct DepositSavingView {
    pub pending: Seq<(u64, DepositModel)>,
    pub init_count: u64,
    pub saved: u64,
    pub awaiting: bool,
    pub error: Option<String>,
}

/// Whether another deposit is to be saved: none under way, none failed, some left.
pub open spec fn saves_left(v: DepositSavingView) -> bool {
    !v.awaiting && v.error is None && v.pending.len() > 0
}

/// The deposit to save next, if any: the first one left, with its id.
pub open spec fn next_of(v: DepositSavingView) -> Option<(u64, DepositModel)> {
    if saves_left(v) {
        Some(v.pending[0])
    } else {
        None
    }
}

/// The state once the next deposit, if any, is handed out to be saved.
pub open spec fn after_next(v: DepositSavingView) -> DepositSavingView {
    if saves_left(v) {
        DepositSavingView { pending: v.pending.drop_first(), awaiting: true, ..v }
    } else {
        v
    }
}

/// The state once the save under way has come back: a success counts, a failure stops
/// the storing with its error.
pub open spec fn after_result(v: DepositSavingView, result: Result<(), String>) -> DepositSavingView {
    match result {
        Ok(_) => DepositSavingView { saved: (v.saved + 1) as u64, awaiting: false, ..v },
        Err(e) => DepositSavingView { error: Some(e), awaiting: false, ..v },
    }
}

/// The state after saving deposit after deposit, each save coming back with the next of
/// `results`, until none is left, one fails, or the results run out.
pub open spec fn drive(v: DepositSavingView, results: Seq<Result<(), String>>) -> DepositSavingView
    decreases results.len(),
{
    if results.len() == 0 || !saves_left(v) {
        v
    } else {
        drive(after_result(after_next(v), results[0]), results.drop_first())
    }
}

/// How many results succeed before the first failure.
pub open spec fn leading_oks(results: Seq<Result<(), String>>) -> nat
    decreases results.len(),
{
    if results.len() == 0 {
        0
    } else if results[0] is Ok {
        1 + leading_oks(results.drop_first())
    } else {
        0
    }
}

/// The saving of deposits stops at the first failure: with one result per deposit, the
/// deposits saved are those before the first failing save (all of them if none fails),
/// the error is that of the failing save, and nothing is left under way.
pub proof fn lemma_saves_stop_at_first_failure(v: DepositSavingView, results: Seq<Result<(), String>>)
    requires
        v.error is None,
        !v.awaiting,
        v.saved + v.pending.len() <= u64::MAX,
        results.len() >= v.pending.len(),
    ensures
        ({
            let k = if leading_oks(results) < v.pending.len() { leading_oks(results) } else { v.pending.len() };
            let w = drive(v, results);
            &&& w.saved == v.saved + k
            &&& w.error == (if k < v.pending.len() { Some(results[k as int]->Err_0) } else { None })
            &&& !w.awaiting
            &&& w.init_count == v.init_count
        }),
    decreases results.len(),
{
    if v.pending.len() == 0 {
    } else {
        let rest = results.drop_first();
        let w = after_result(after_next(v), results[0]);
        match results[0] {
            Ok(_) => {
                lemma_saves_stop_at_first_failure(w, rest);
                assert(leading_oks(results) == 1 + leading_oks(rest));
                let k1 = if leading_oks(rest) < w.pending.len() { leading_oks(rest) } else { w.pending.len() };
                if k1 < w.pending.len() {
                    assert(rest[k1 as int] == results[(k1 + 1) as int]);
                }
            },
            Err(e) => {
                assert(leading_oks(results) == 0);
                assert(!saves_left(w));
                assert(drive(w, rest) == w);
            },
        }
    }
}

/// The storing of a block's deposits, one save at a time, stopping at the first save that
/// fails.
pub struct DepositSaving {
    pending: Vec<(u64, DepositModel)>,
    init_count: u64,
    saved: u64,
    awaiting: bool,
    error: Option<String>,
}

impl View for DepositSaving {
    type V = DepositSavingView;

    closed spec fn view(&self) -> DepositSavingView {
        DepositSavingView {
            pending: self.pending@,
            init_count: self.init_count,
            saved: self.saved,
            awaiting: self.awaiting,
            error: self.error,
        }
    }
}

impl DepositSaving {
    /// The counts fit in `u64`, and until a save fails the deposits left carry the ids
    /// that follow those saved and the one under way.
    pub closed spec fn wf(&self) -> bool {
        &&& self.init_count + self.saved + (if self.awaiting { 1int } else { 0 }) + self.pending@.len() <= u64::MAX
        &&& self.error is None ==> forall|j: int|
            0 <= j < self.pending@.len() ==> (#[trigger] self.pending@[j]).0 == self.init_count + self.saved
                + (if self.awaiting { 1int } else { 0 }) + j
    }

    /// The deposits of a block to be saved after the `init_count` already stored.
    pub fn new(deposits: ConsolidatedDeposits, init_count: u64) -> (s: Self)
        requires
            init_count + deposits.deposits().len() <= u64::MAX,
        ensures
            s.wf(),
            s@.pending.len() == deposits.deposits().len(),
            forall|i: int|
                0 <= i < s@.pending.len() ==> (#[trigger] s@.pending[i]).0 == init_count + i
                    && s@.pending[i].1 == deposits.deposits()[i],
            s@.init_count == init_count,
            s@.saved == 0,
            !s@.awaiting,
            s@.error is None,
    {
        let pending = deposits.numbered(init_count);
        DepositSaving { pending, init_count, saved: 0, awaiting: false, error: None }
    }

    /// Hands out the next deposit to save, with its id, unless a save is under way, one
    /// failed, or none is left.
    pub fn next(&mut self) -> (r: Option<(u64, DepositModel)>)
        requires
            old(self).wf(),
        ensures
            final(self).wf(),
            final(self)@ == after_next(old(self)@),
            r == next_of(old(self)@),
            r matches Some(p) ==> p.0 == old(self)@.init_count + old(self)@.saved,
    {
        if !self.awaiting && self.error.is_none() && self.pending.len() > 0 {
            let ghost before = self.pending@;
            let p = self.pending.remove(0);
            self.awaiting = true;
            assert(self.pending@ =~= before.drop_first());
            Some(p)
        } else {
            None
        }
    }

    /// Takes in what the save under way came to.
    pub fn on_result(&mut self, result: Result<(), String>)
        requires
            old(self).wf(),
            old(self)@.awaiting,
        ensures
            final(self).wf(),
            final(self)@ == after_result(old(self)@, result),
    {
        match result {
            Ok(_) => {
                self.saved = self.saved + 1;
            },
            Err(e) => {
                self.error = Some(e);
            },
        }
        self.awaiting = false;
    }

    /// What the storing came to: the count stored before plus the saves that succeeded,
    /// and the error of the save that failed, if one did.
    pub fn finish(self) -> (r: DepositsSaved)
        requires
            self.wf(),
        ensures
            r.count == self@.init_count + self@.saved,
            r.error == self@.error,
    {
        DepositsSaved { count: self.init_count + self.saved, error: self.error }
    }
}

/// The stored count after storing deposits one by one: the deposits stored before an error
/// (or all of them) count, and the error is handed on.
pub fn save_outcome(init_count: u64, saved: usize, error: Option<String>) -> (r: DepositsSaved)
    requires
        init_count + saved <= u64::MAX,
    ensures
        r.count == init_count + saved,
        r.error == error,
{
    DepositsSaved { count: init_count + saved as u64, error }
}

} // verus!
