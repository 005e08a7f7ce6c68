//! The change logs and watermarks that a version keeps for its tables.

use vstd::prelude::*;
use crate::epoch::HummockEpoch;
use crate::key::bytes_to_vec;
use crate::levels::{clone_ssts, clone_u64s, ssts_view, SstableInfo, SstableInfoView};

verus! {

/// What an `EpochNewChangeLog` stands for.
pub struct EpochNewChangeLogView {
    pub new_value: Seq<SstableInfoView>,
    pub old_value: Seq<SstableInfoView>,
    pub epochs: Seq<HummockEpoch>,
}

/// The table files that hold what a table's rows became, and what they
/// were before, in a run of epochs.
#[derive(Debug, PartialEq, Eq)]
pub struct EpochNewChangeLog {
    pub new_value: Vec<SstableInfo>,
    pub old_value: Vec<SstableInfo>,
    pub epochs: Vec<HummockEpoch>,
}

impl View for EpochNewChangeLog {
    type V = EpochNewChangeLogView;

    open spec fn view(&self) -> EpochNewChangeLogView {
        EpochNewChangeLogView {
            new_value: ssts_view(self.new_value@),
            old_value: ssts_view(self.old_value@),
            epochs: self.epochs@,
        }
    }
}

impl Clone for EpochNewChangeLog {
    fn clone(&self) -> (r: Self)
        ensures
            r@ == self@,
    {
        EpochNewChangeLog {
            new_value: clone_ssts(&self.new_value),
            old_value: clone_ssts(&self.old_value),
            epochs: clone_u64s(&self.epochs),
        }
    }
}

/// The entries of a vector, each by its view.
pub open spec fn change_logs_view(logs: Seq<EpochNewChangeLog>) -> Seq<EpochNewChangeLogView> {
    logs.map_values(|l: EpochNewChangeLog| l@)
}

/// Whether an entry of a change log outlives a truncation at
/// `truncate_epoch`: its last epoch is later.
pub open spec fn outlives(log: EpochNewChangeLogView, truncate_epoch: HummockEpoch) -> bool {
    log.epochs.len() > 0 && log.epochs.last() > truncate_epoch
}

/// The entries of `logs` that outlive a truncation at `truncate_epoch`.
pub open spec fn truncated(
    logs: Seq<EpochNewChangeLogView>,
    truncate_epoch: HummockEpoch,
) -> Seq<EpochNewChangeLogView> {
    logs.filter(|l: EpochNewChangeLogView| outlives(l, truncate_epoch))
}

/// The change log of one table, the oldest entry first.
#[derive(Debug, PartialEq, Eq)]
pub struct TableChangeLog {
    pub logs: Vec<EpochNewChangeLog>,
}

impl View for TableChangeLog {
    type V = Seq<EpochNewChangeLogView>;

    open spec fn view(&self) -> Seq<EpochNewChangeLogView> {
        change_logs_view(self.logs@)
    }
}

impl Clone for TableChangeLog {
    fn clone(&self) -> (r: Self)
        ensures
            r@ == self@,
    {
        let mut logs: Vec<EpochNewChangeLog> = Vec::new();
        let mut i: usize = 0;
        while i < self.logs.len()
            invariant
                i <= self.logs.len(),
                logs.len() == i,
                forall|j: int| 0 <= j < i ==> (#[trigger] logs[j])@ == self.logs[j]@,
            decreases self.logs.len() - i,
        {
            logs.push(self.logs[i].clone());
            i = i + 1;
        }
        let r = TableChangeLog { logs };
        proof {
            assert(r@ =~= self@);
        }
        r
    }
}

impl TableChangeLog {
    /// A change log with the one entry `log`.
    pub fn new(log: EpochNewChangeLog) -> (r: Self)
        ensures
            r@ == seq![log@],
    {
        let mut logs: Vec<EpochNewChangeLog> = Vec::new();
        logs.push(log);
        let r = TableChangeLog { logs };
        proof {
            assert(r@ =~= seq![log@]);
        }
        r
    }

    /// Adds `log` as the newest entry.
    pub fn push(&mut self, log: EpochNewChangeLog)
        ensures
            final(self)@ == old(self)@.push(log@),
    {
        self.logs.push(log);
        proof {
            assert(self@ =~= old(self)@.push(log@));
        }
    }

    /// Drops the entries whose last epoch is not later than
    /// `truncate_epoch`.
    pub fn truncate(&mut self, truncate_epoch: HummockEpoch)
        ensures
            final(self)@ == truncated(old(self)@, truncate_epoch),
    {
        let ghost all = self@;
        let ghost keep = |l: EpochNewChangeLogView| outlives(l, truncate_epoch);
        let mut logs: Vec<EpochNewChangeLog> = Vec::new();
        std::mem::swap(&mut self.logs, &mut logs);
        let ghost given = logs@;
        let mut kept: Vec<EpochNewChangeLog> = Vec::new();
        proof {
            reveal(Seq::filter);
            assert(all.take(0) =~= Seq::empty());
            assert(change_logs_view(kept@) =~= all.take(0).filter(keep));
        }
        for log in it: logs
            invariant
                it.seq() == given,
                all == change_logs_view(given),
                keep == (|l: EpochNewChangeLogView| outlives(l, truncate_epoch)),
                change_logs_view(kept@) == all.take(it.index() as int).filter(keep),
        {
            let ghost before = change_logs_view(kept@);
            proof {
                reveal(Seq::filter);
                let k = it.index() as int;
                assert(all.take(k + 1).drop_last() =~= all.take(k));
                assert(all.take(k + 1).last() == log@);
            }
            let n = log.epochs.len();
            if n > 0 && log.epochs[n - 1] > truncate_epoch {
                kept.push(log);
                proof {
                    assert(change_logs_view(kept@) =~= before.push(log@));
                }
            }
        }
        proof {
            assert(all.take(all.len() as int) =~= all);
        }
        self.logs = kept;
    }
}

/// What a `ChangeLogDelta` stands for.
pub struct ChangeLogDeltaView {
    pub new_log: EpochNewChangeLogView,
    pub truncate_epoch: HummockEpoch,
}

/// What a version delta does to the change log of one table: a new
/// entry, and the epoch up to which old entries go.
#[derive(Debug, PartialEq, Eq)]
pub struct ChangeLogDelta {
    pub new_log: EpochNewChangeLog,
    pub truncate_epoch: HummockEpoch,
}

impl View for ChangeLogDelta {
    type V = ChangeLogDeltaView;

    open spec fn view(&self) -> ChangeLogDeltaView {
        ChangeLogDeltaView { new_log: self.new_log@, truncate_epoch: self.truncate_epoch }
    }
}

impl Clone for ChangeLogDelta {
    fn clone(&self) -> (r: Self)
        ensures
            r@ == self@,
    {
        ChangeLogDelta { new_log: self.new_log.clone(), truncate_epoch: self.truncate_epoch }
    }
}

/// What an `EpochWatermark` stands for.
pub struct EpochWatermarkView {
    pub epoch: HummockEpoch,
    pub watermark: Seq<u8>,
}

/// The key below which, from `epoch` on, a table's rows are out of use.
#[derive(Debug, PartialEq, Eq)]
pub struct EpochWatermark {
    pub epoch: HummockEpoch,
    pub watermark: Vec<u8>,
}

impl View for EpochWatermark {
    type V = EpochWatermarkView;

    open spec fn view(&self) -> EpochWatermarkView {
        EpochWatermarkView { epoch: self.epoch, watermark: self.watermark@ }
    }
}

impl Clone for EpochWatermark {
    fn clone(&self) -> (r: Self)
        ensures
            r@ == self@,
    {
        EpochWatermark { epoch: self.epoch, watermark: bytes_to_vec(self.watermark.as_slice()) }
    }
}

/// The watermarks of a vector, each by its view.
pub open spec fn watermarks_view(watermarks: Seq<EpochWatermark>) -> Seq<EpochWatermarkView> {
    watermarks.map_values(|w: EpochWatermark| w@)
}

/// What a `TableWatermarks` stands for.
pub struct TableWatermarksView {
    pub watermarks: Seq<EpochWatermarkView>,
    pub ascending: bool,
}

/// The watermarks of one table, the oldest first.
#[derive(Debug, PartialEq, Eq)]
pub struct TableWatermarks {
    pub watermarks: Vec<EpochWatermark>,
    /// Whether the watermarks cut off the keys below them, or those above.
    pub ascending: bool,
}

impl View for TableWatermarks {
    type V = TableWatermarksView;

    open spec fn view(&self) -> TableWatermarksView {
        TableWatermarksView {
            watermarks: watermarks_view(self.watermarks@),
            ascending: self.ascending,
        }
    }
}

impl Clone for TableWatermarks {
    fn clone(&self) -> (r: Self)
        ensures
            r@ == self@,
    {
        let mut watermarks: Vec<EpochWatermark> = Vec::new();
        let mut i: usize = 0;
        while i < self.watermarks.len()
            invariant
                i <= self.watermarks.len(),
                watermarks.len() == i,
                forall|j: int| 0 <= j < i ==> (#[trigger] watermarks[j])@ == self.watermarks[j]@,
            decreases self.watermarks.len() - i,
        {
            watermarks.push(self.watermarks[i].clone());
            i = i + 1;
        }
        let r = TableWatermarks { watermarks, ascending: self.ascending };
        proof {
            assert(r@.watermarks =~= self@.watermarks);
        }
        r
    }
}

impl TableWatermarksView {
    /// These watermarks, and after them those of `newer`.
    pub open spec fn with(self, newer: TableWatermarksView) -> TableWatermarksView {
        TableWatermarksView { watermarks: self.watermarks + newer.watermarks, ..self }
    }
}

impl TableWatermarks {
    /// Adds the watermarks of `newer` after those held.
    pub fn apply_new_table_watermarks(&mut self, newer: &TableWatermarks)
        ensures
            final(self)@ == old(self)@.with(newer@),
    {
        let ghost before = self@.watermarks;
        let mut i: usize = 0;
        while i < newer.watermarks.len()
            invariant
                i <= newer.watermarks.len(),
                self.ascending == old(self).ascending,
                watermarks_view(self.watermarks@) == before + newer@.watermarks.take(i as int),
            decreases newer.watermarks.len() - i,
        {
            let ghost held = watermarks_view(self.watermarks@);
            self.watermarks.push(newer.watermarks[i].clone());
            proof {
                assert(watermarks_view(self.watermarks@) =~= held.push(newer.watermarks@[i as int]@));
                assert(held.push(newer.watermarks@[i as int]@) =~= before + newer@.watermarks.take(
                    i + 1,
                ));
            }
            i = i + 1;
        }
        proof {
            assert(newer@.watermarks.take(newer.watermarks.len() as int) =~= newer@.watermarks);
        }
    }
}

} // verus!
