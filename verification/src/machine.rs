//! Executable model of an effect's control state. Each operation is specified by a
//! transition function on [`MachineView`] (`*_next`), and the laws of the machine are
//! proved over those transitions.
use crate::partition::{
    len_of, len_prefix, lemma_len_prefix_total, lemma_partition_len_bounds, lemma_partition_nonempty,
    partition_len,
};
use crate::state::{
    advance_step, apply_finish_step, min_u64, promotion_verdict, reduce_step, skip_step, Error,
    Status,
};
use vstd::math::min;
use vstd::prelude::*;

verus! {

/// Per-shard control state: the epoch it was last reset in, and the two phase cursors.
/// The shard's length is computed from the partition, never stored.
#[derive(Clone, Copy, Debug)]
pub struct ShardState {
    pub epoch: u64,
    pub reduce_cursor: u64,
    pub apply_cursor: u64,
}

/// The control fields of an effect that drive its transitions.
pub struct Machine {
    pub status: Status,
    pub epoch: u64,
    pub total: u64,
    pub shard_count: u32,
    pub shards_created: u32,
    pub shards_done: u32,
    pub merge_cursor: u32,
    pub reduce_skipped: u64,
    pub apply_skipped: u64,
    pub finalized: bool,
    pub requires_reduce: bool,
    pub pull_enabled: bool,
    pub ever_sealed: bool,
    pub shards: Vec<ShardState>,
}

/// The mathematical value of a [`Machine`]: its fields, with the shards as a sequence.
pub struct MachineView {
    pub status: Status,
    pub epoch: u64,
    pub total: u64,
    pub shard_count: u32,
    pub shards_created: u32,
    pub shards_done: u32,
    pub merge_cursor: u32,
    pub reduce_skipped: u64,
    pub apply_skipped: u64,
    pub finalized: bool,
    pub requires_reduce: bool,
    pub pull_enabled: bool,
    pub ever_sealed: bool,
    pub shards: Seq<ShardState>,
}

impl View for Machine {
    type V = MachineView;

    open spec fn view(&self) -> MachineView {
        MachineView {
            status: self.status,
            epoch: self.epoch,
            total: self.total,
            shard_count: self.shard_count,
            shards_created: self.shards_created,
            shards_done: self.shards_done,
            merge_cursor: self.merge_cursor,
            reduce_skipped: self.reduce_skipped,
            apply_skipped: self.apply_skipped,
            finalized: self.finalized,
            requires_reduce: self.requires_reduce,
            pull_enabled: self.pull_enabled,
            ever_sealed: self.ever_sealed,
            shards: self.shards@,
        }
    }
}

/// A freshly created shard: epoch 0, so the first touch resets it.
pub open spec fn fresh_shard() -> ShardState {
    ShardState { epoch: 0, reduce_cursor: 0, apply_cursor: 0 }
}

/// The machine `init` creates, or why it refuses.
pub open spec fn init_result(
    shard_count: u32,
    requires_reduce: bool,
    order_independent: bool,
    pull_enabled: bool,
) -> Result<MachineView, Error> {
    if shard_count < 1 {
        Err(Error::BadShardCount)
    } else if shard_count > 1 && !order_independent {
        Err(Error::NotShardable)
    } else {
        Ok(
            MachineView {
                status: Status::Pending,
                epoch: 1,
                total: 0,
                shard_count,
                shards_created: 0,
                shards_done: 0,
                merge_cursor: 0,
                reduce_skipped: 0,
                apply_skipped: 0,
                finalized: false,
                requires_reduce,
                pull_enabled,
                ever_sealed: false,
                shards: Seq::empty(),
            },
        )
    }
}

impl MachineView {
    /// Length of shard `sid` under the current partition.
    pub open spec fn len(self, sid: int) -> int {
        len_of(self.total as int, self.shard_count as int, sid)
    }

    /// The first work phase: REDUCE for two-phase effects, else APPLY.
    pub open spec fn work_phase(self) -> Status {
        if self.requires_reduce {
            Status::Reducing
        } else {
            Status::Applying
        }
    }

    /// `1 <= shard_count <= total`: every shard owns at least one member.
    pub open spec fn partition_valid(self) -> bool {
        1 <= self.shard_count && self.shard_count <= self.total
    }

    /// Shard `sid` after the lazy per-epoch reset prologue.
    pub open spec fn touched(self, sid: int) -> ShardState {
        let s = self.shards[sid];
        if s.epoch < self.epoch {
            ShardState { epoch: self.epoch, reduce_cursor: 0, apply_cursor: 0 }
        } else {
            s
        }
    }

    /// This machine with shard `sid` replaced by `s`.
    pub open spec fn with_shard(self, sid: int, s: ShardState) -> MachineView {
        MachineView { shards: self.shards.update(sid, s), ..self }
    }

    pub open spec fn enroll_next(self, k: u64) -> (Result<(), Error>, MachineView) {
        if self.status != Status::Pending {
            (Err(Error::WrongPhase), self)
        } else {
            (Ok(()), MachineView { total: (self.total + k) as u64, ..self })
        }
    }

    pub open spec fn create_shards_next(self, n: u32) -> (Result<(), Error>, MachineView) {
        if self.status != Status::Pending {
            (Err(Error::WrongPhase), self)
        } else {
            (
                Ok(()),
                MachineView {
                    shards: self.shards + Seq::new(n as nat, |_i: int| fresh_shard()),
                    shards_created: (self.shards_created + n) as u32,
                    ..self
                },
            )
        }
    }

    pub open spec fn seal_next(self) -> (Result<(), Error>, MachineView) {
        if self.status != Status::Pending {
            (Err(Error::WrongPhase), self)
        } else if self.pull_enabled {
            (Err(Error::PullPushExclusive), self)
        } else if self.epoch < 1 {
            (Err(Error::EpochUninit), self)
        } else if !self.partition_valid() {
            (Err(Error::BadShardCount), self)
        } else if self.shards_created != self.shard_count {
            (Err(Error::ShardsIncomplete), self)
        } else {
            (
                Ok(()),
                MachineView {
                    ever_sealed: true,
                    shards_done: 0,
                    status: self.work_phase(),
                    ..self
                },
            )
        }
    }

    pub open spec fn cancel_next(self) -> (Result<(), Error>, MachineView) {
        if self.status == Status::Done || self.status == Status::Cancelled {
            (Err(Error::WrongPhase), self)
        } else {
            (Ok(()), MachineView { status: Status::Cancelled, ..self })
        }
    }

    pub open spec fn reset_next(self) -> (Result<(), Error>, MachineView) {
        if self.status != Status::Done && self.status != Status::Cancelled {
            (Err(Error::WrongPhase), self)
        } else if self.pull_enabled {
            (Err(Error::PullNoReset), self)
        } else if !self.ever_sealed || !self.partition_valid() {
            (Err(Error::NotSealed), self)
        } else {
            (
                Ok(()),
                MachineView {
                    epoch: (self.epoch + 1) as u64,
                    shards_done: 0,
                    merge_cursor: 0,
                    reduce_skipped: 0,
                    apply_skipped: 0,
                    finalized: false,
                    status: self.work_phase(),
                    ..self
                },
            )
        }
    }

    pub open spec fn advance_reduce_next(self, sid: u32, batch: u64) -> (
        Result<u64, Error>,
        MachineView,
    ) {
        if self.status != Status::Reducing {
            (Err(Error::WrongPhase), self)
        } else if sid >= self.shard_count {
            (Err(Error::ShardIdOutOfRange), self)
        } else {
            let t = self.touched(sid as int);
            let v = self.with_shard(sid as int, t);
            let len = self.len(sid as int);
            if t.reduce_cursor >= len {
                (Err(Error::ShardComplete), v)
            } else {
                let n = min_u64(batch, (len - t.reduce_cursor) as u64);
                (
                    Ok(n),
                    v.with_shard(
                        sid as int,
                        ShardState { reduce_cursor: (t.reduce_cursor + n) as u64, ..t },
                    ),
                )
            }
        }
    }

    pub open spec fn skip_reduce_next(self, sid: u32) -> (Result<(), Error>, MachineView) {
        if self.status != Status::Reducing {
            (Err(Error::WrongPhase), self)
        } else if sid >= self.shard_count {
            (Err(Error::ShardIdOutOfRange), self)
        } else {
            let t = self.touched(sid as int);
            let v = self.with_shard(sid as int, t);
            if t.reduce_cursor >= self.len(sid as int) {
                (Err(Error::ShardComplete), v)
            } else {
                (
                    Ok(()),
                    MachineView {
                        reduce_skipped: (self.reduce_skipped + 1) as u64,
                        ..v.with_shard(
                            sid as int,
                            ShardState { reduce_cursor: (t.reduce_cursor + 1) as u64, ..t },
                        )
                    },
                )
            }
        }
    }

    pub open spec fn begin_apply_next(self) -> (Result<(), Error>, MachineView) {
        if self.status != Status::Reduced {
            (Err(Error::WrongPhase), self)
        } else if self.pull_enabled {
            (Err(Error::PullPushExclusive), self)
        } else {
            (Ok(()), MachineView { shards_done: 0, status: Status::Applying, ..self })
        }
    }

    pub open spec fn advance_apply_next(self, sid: u32, batch: u64) -> (
        Result<u64, Error>,
        MachineView,
    ) {
        if self.status != Status::Applying {
            (Err(Error::WrongPhase), self)
        } else if sid >= self.shard_count {
            (Err(Error::ShardIdOutOfRange), self)
        } else {
            let t = self.touched(sid as int);
            let v = self.with_shard(sid as int, t);
            let len = self.len(sid as int);
            if t.apply_cursor >= len {
                (Err(Error::ShardComplete), v)
            } else {
                let n = min_u64(batch, (len - t.apply_cursor) as u64);
                (
                    Ok(n),
                    v.with_shard(
                        sid as int,
                        ShardState { apply_cursor: (t.apply_cursor + n) as u64, ..t },
                    ),
                )
            }
        }
    }

    pub open spec fn skip_next(self, sid: u32) -> (Result<(), Error>, MachineView) {
        if self.status != Status::Applying {
            (Err(Error::WrongPhase), self)
        } else if sid >= self.shard_count {
            (Err(Error::ShardIdOutOfRange), self)
        } else {
            let t = self.touched(sid as int);
            let v = self.with_shard(sid as int, t);
            if t.apply_cursor >= self.len(sid as int) {
                (Err(Error::ShardComplete), v)
            } else {
                (
                    Ok(()),
                    MachineView {
                        apply_skipped: (self.apply_skipped + 1) as u64,
                        ..v.with_shard(
                            sid as int,
                            ShardState { apply_cursor: (t.apply_cursor + 1) as u64, ..t },
                        )
                    },
                )
            }
        }
    }

    /// The promotion verdict on shard `sid` against the ascending counter `next`.
    pub open spec fn verdict(self, next: u32, sid: u32, cursor: u64) -> Result<(), Error> {
        promotion_verdict(
            next,
            sid,
            self.shards[sid as int].epoch,
            self.epoch,
            cursor,
            self.len(sid as int) as u64,
        )
    }

    /// Merging `ids` in order, stopping at the first shard that may not be merged.
    pub open spec fn merge_run(self, ids: Seq<u32>) -> (Result<(), Error>, MachineView)
        decreases ids.len(),
    {
        if ids.len() == 0 {
            (Ok(()), self)
        } else {
            let sid = ids[0];
            let verdict = self.verdict(self.merge_cursor, sid, self.shards[sid as int].reduce_cursor);
            if verdict is Err {
                (verdict, self)
            } else {
                MachineView { merge_cursor: (self.merge_cursor + 1) as u32, ..self }.merge_run(
                    ids.drop_first(),
                )
            }
        }
    }

    /// The ids of a `merge_run` can be indexed, and every counter step fits in `u32`.
    pub open spec fn merge_safe(self, ids: Seq<u32>) -> bool
        decreases ids.len(),
    {
        ids.len() == 0 || {
            let sid = ids[0];
            &&& (sid as int) < self.shards.len()
            &&& self.verdict(self.merge_cursor, sid, self.shards[sid as int].reduce_cursor) is Ok
                ==> {
                &&& self.merge_cursor < u32::MAX
                &&& MachineView { merge_cursor: (self.merge_cursor + 1) as u32, ..self }.merge_safe(
                    ids.drop_first(),
                )
            }
        }
    }

    pub open spec fn reduce_shards_next(self, ids: Seq<u32>) -> (Result<(), Error>, MachineView) {
        if self.status != Status::Reducing {
            (Err(Error::WrongPhase), self)
        } else {
            let (r, v) = self.merge_run(ids);
            if r is Err {
                (r, v)
            } else if v.merge_cursor == v.shard_count {
                (Ok(()), MachineView { status: Status::Reduced, ..v })
            } else {
                (Ok(()), v)
            }
        }
    }

    /// Counting `ids` done in order, stopping at the first shard that is not done.
    pub open spec fn finish_run(self, ids: Seq<u32>) -> (Result<(), Error>, MachineView)
        decreases ids.len(),
    {
        if ids.len() == 0 {
            (Ok(()), self)
        } else {
            let sid = ids[0];
            let verdict = self.verdict(self.shards_done, sid, self.shards[sid as int].apply_cursor);
            if verdict is Err {
                (verdict, self)
            } else {
                MachineView { shards_done: (self.shards_done + 1) as u32, ..self }.finish_run(
                    ids.drop_first(),
                )
            }
        }
    }

    /// The ids of a `finish_run` can be indexed, and every counter step fits in `u32`.
    pub open spec fn finish_safe(self, ids: Seq<u32>) -> bool
        decreases ids.len(),
    {
        ids.len() == 0 || {
            let sid = ids[0];
            &&& (sid as int) < self.shards.len()
            &&& self.verdict(self.shards_done, sid, self.shards[sid as int].apply_cursor) is Ok
                ==> {
                &&& self.shards_done < u32::MAX
                &&& MachineView { shards_done: (self.shards_done + 1) as u32, ..self }.finish_safe(
                    ids.drop_first(),
                )
            }
        }
    }

    pub open spec fn try_finish_apply_next(self, ids: Seq<u32>) -> (
        Result<(), Error>,
        MachineView,
    ) {
        if self.status != Status::Applying {
            (Err(Error::WrongPhase), self)
        } else {
            let (r, v) = self.finish_run(ids);
            if r is Err {
                (r, v)
            } else if v.shards_done == v.shard_count {
                (Ok(()), MachineView { status: Status::Done, ..v })
            } else {
                (Ok(()), v)
            }
        }
    }

    pub open spec fn finalize_next(self) -> (Result<(), Error>, MachineView) {
        if self.status != Status::Done {
            (Err(Error::WrongPhase), self)
        } else if self.finalized {
            (Err(Error::AlreadyFinalized), self)
        } else {
            (Ok(()), MachineView { finalized: true, ..self })
        }
    }
}

impl Machine {
    /// `init_effect`: a new effect in `Pending` at epoch 1 (0 is the never-applied
    /// sentinel). More than one shard requires an order-independent rule.
    pub fn init(
        shard_count: u32,
        requires_reduce: bool,
        order_independent: bool,
        pull_enabled: bool,
    ) -> (r: Result<Machine, Error>)
        ensures
            r matches Ok(m) ==> init_result(
                shard_count,
                requires_reduce,
                order_independent,
                pull_enabled,
            ) == Ok::<MachineView, Error>(m@),
            r matches Err(e) ==> init_result(
                shard_count,
                requires_reduce,
                order_independent,
                pull_enabled,
            ) == Err::<MachineView, Error>(e),
    {
        if shard_count < 1 {
            return Err(Error::BadShardCount);
        }
        if shard_count > 1 && !order_independent {
            return Err(Error::NotShardable);
        }
        let m = Machine {
            status: Status::Pending,
            epoch: 1,
            total: 0,
            shard_count,
            shards_created: 0,
            shards_done: 0,
            merge_cursor: 0,
            reduce_skipped: 0,
            apply_skipped: 0,
            finalized: false,
            requires_reduce,
            pull_enabled,
            ever_sealed: false,
            shards: Vec::new(),
        };
        assert(m@.shards =~= Seq::<ShardState>::empty());
        Ok(m)
    }

    /// `enroll` / `enroll_batch`: adds `k` members while `Pending`.
    pub fn enroll(&mut self, k: u64) -> (r: Result<(), Error>)
        requires
            old(self).status == Status::Pending ==> old(self).total + k <= u64::MAX,
        ensures
            (r, final(self)@) == old(self)@.enroll_next(k),
    {
        if self.status != Status::Pending {
            return Err(Error::WrongPhase);
        }
        self.total = self.total + k;
        Ok(())
    }

    /// `init_shards` create branch: creates `n` shards at epoch 0 (reset on first touch)
    /// while `Pending`, counting them in `shards_created`.
    pub fn create_shards(&mut self, n: u32) -> (r: Result<(), Error>)
        requires
            old(self).status == Status::Pending ==> old(self).shards_created + n <= u32::MAX,
        ensures
            (r, final(self)@) == old(self)@.create_shards_next(n),
    {
        if self.status != Status::Pending {
            return Err(Error::WrongPhase);
        }
        let ghost start = self@;
        let mut i: u32 = 0;
        while i < n
            invariant
                0 <= i <= n,
                start.shards_created + n <= u32::MAX,
                self@ == (MachineView {
                    shards: start.shards + Seq::new(i as nat, |_j: int| fresh_shard()),
                    shards_created: (start.shards_created + i) as u32,
                    ..start
                }),
            decreases n - i,
        {
            self.shards.push(ShardState { epoch: 0, reduce_cursor: 0, apply_cursor: 0 });
            self.shards_created = self.shards_created + 1;
            i = i + 1;
            assert(self@.shards =~= start.shards + Seq::new(i as nat, |_j: int| fresh_shard()));
        }
        Ok(())
    }

    fn partition_valid(&self) -> (r: bool)
        ensures
            r == self@.partition_valid(),
    {
        let p = self.shard_count as u64;
        p >= 1 && p <= self.total
    }

    /// `seal`: freezes the member set and enters the first work phase.
    pub fn seal(&mut self) -> (r: Result<(), Error>)
        ensures
            (r, final(self)@) == old(self)@.seal_next(),
    {
        if self.status != Status::Pending {
            return Err(Error::WrongPhase);
        }
        if self.pull_enabled {
            return Err(Error::PullPushExclusive);
        }
        if self.epoch < 1 {
            return Err(Error::EpochUninit);
        }
        if !self.partition_valid() {
            return Err(Error::BadShardCount);
        }
        if self.shards_created != self.shard_count {
            return Err(Error::ShardsIncomplete);
        }
        self.ever_sealed = true;
        self.shards_done = 0;
        self.status = if self.requires_reduce {
            Status::Reducing
        } else {
            Status::Applying
        };
        Ok(())
    }

    /// `cancel`: any non-terminal phase moves to `Cancelled`.
    pub fn cancel(&mut self) -> (r: Result<(), Error>)
        ensures
            (r, final(self)@) == old(self)@.cancel_next(),
    {
        if self.status == Status::Done || self.status == Status::Cancelled {
            return Err(Error::WrongPhase);
        }
        self.status = Status::Cancelled;
        Ok(())
    }

    /// `reset`: re-runs a sealed effect from `Done` or `Cancelled` in a new epoch,
    /// clearing the counters and the finalized flag; shards reset on their next touch.
    pub fn reset(&mut self) -> (r: Result<(), Error>)
        requires
            old(self)@.reset_next().0 is Ok ==> old(self).epoch < u64::MAX,
        ensures
            (r, final(self)@) == old(self)@.reset_next(),
    {
        if self.status != Status::Done && self.status != Status::Cancelled {
            return Err(Error::WrongPhase);
        }
        if self.pull_enabled {
            return Err(Error::PullNoReset);
        }
        if !self.ever_sealed || !self.partition_valid() {
            return Err(Error::NotSealed);
        }
        self.epoch = self.epoch + 1;
        self.shards_done = 0;
        self.merge_cursor = 0;
        self.reduce_skipped = 0;
        self.apply_skipped = 0;
        self.finalized = false;
        self.status = if self.requires_reduce {
            Status::Reducing
        } else {
            Status::Applying
        };
        Ok(())
    }

    /// Length of shard `shard_id` under the current partition.
    fn len(&self, shard_id: u32) -> (r: u64)
        requires
            self.shard_count > 0,
        ensures
            r == self@.len(shard_id as int),
    {
        partition_len(self.total, self.shard_count as u64, shard_id as u64)
    }

    /// The universal lazy per-epoch reset prologue, run before any cursor moves.
    fn lazy_reset(&mut self, shard_id: u32)
        requires
            (shard_id as int) < old(self).shards.len(),
        ensures
            final(self)@ == old(self)@.with_shard(shard_id as int, old(self)@.touched(shard_id as int)),
    {
        let e = self.epoch;
        let s = self.shards[shard_id as usize];
        if s.epoch < e {
            self.shards.set(shard_id as usize, ShardState { epoch: e, reduce_cursor: 0, apply_cursor: 0 });
        } else {
            self.shards.set(shard_id as usize, s);
        }
        assert(self@.shards =~= old(self)@.with_shard(shard_id as int, old(self)@.touched(shard_id as int)).shards);
    }

    /// `advance_reduce`: folds up to `batch` members of `shard_id`; returns how many.
    pub fn advance_reduce(&mut self, shard_id: u32, batch: u64) -> (r: Result<u64, Error>)
        requires
            old(self).status == Status::Reducing && shard_id < old(self).shard_count ==> (shard_id as int)
                < old(self).shards.len(),
        ensures
            (r, final(self)@) == old(self)@.advance_reduce_next(shard_id, batch),
    {
        if self.status != Status::Reducing {
            return Err(Error::WrongPhase);
        }
        if shard_id >= self.shard_count {
            return Err(Error::ShardIdOutOfRange);
        }
        self.lazy_reset(shard_id);
        let len = self.len(shard_id);
        let mut s = self.shards[shard_id as usize];
        let n = match advance_step(s.reduce_cursor, len, batch) {
            Ok(n) => n,
            Err(e) => return Err(e),
        };
        s.reduce_cursor = s.reduce_cursor + n;
        self.shards.set(shard_id as usize, s);
        assert(self@.shards =~= old(self)@.advance_reduce_next(shard_id, batch).1.shards);
        Ok(n)
    }

    /// `skip_reduce`: the authority's escape for a poison member; the REDUCE cursor moves
    /// past it and `reduce_skipped` counts the member dropped from the aggregate.
    pub fn skip_reduce(&mut self, shard_id: u32) -> (r: Result<(), Error>)
        requires
            old(self).status == Status::Reducing && shard_id < old(self).shard_count ==> (shard_id as int)
                < old(self).shards.len(),
            old(self)@.skip_reduce_next(shard_id).0 is Ok ==> old(self).reduce_skipped < u64::MAX,
        ensures
            (r, final(self)@) == old(self)@.skip_reduce_next(shard_id),
    {
        if self.status != Status::Reducing {
            return Err(Error::WrongPhase);
        }
        if shard_id >= self.shard_count {
            return Err(Error::ShardIdOutOfRange);
        }
        self.lazy_reset(shard_id);
        let len = self.len(shard_id);
        let mut s = self.shards[shard_id as usize];
        match skip_step(s.reduce_cursor, len) {
            Ok(()) => {},
            Err(e) => return Err(e),
        }
        s.reduce_cursor = s.reduce_cursor + 1;
        self.shards.set(shard_id as usize, s);
        self.reduce_skipped = self.reduce_skipped + 1;
        assert(self@.shards =~= old(self)@.skip_reduce_next(shard_id).1.shards);
        Ok(())
    }

    /// `reduce_shards`: merges fully reduced shards in ascending order (no lazy reset: a
    /// stale shard is not complete). `Reduced` once every shard is merged.
    pub fn reduce_shards(&mut self, shard_ids: &[u32]) -> (r: Result<(), Error>)
        requires
            old(self).status == Status::Reducing ==> {
                &&& old(self)@.merge_safe(shard_ids@)
                &&& shard_ids@.len() > 0 ==> old(self).shard_count > 0
            },
        ensures
            (r, final(self)@) == old(self)@.reduce_shards_next(shard_ids@),
    {
        if self.status != Status::Reducing {
            return Err(Error::WrongPhase);
        }
        let ghost start = self@;
        let count = shard_ids.len();
        let mut i: usize = 0;
        assert(shard_ids@.skip(0) =~= shard_ids@);
        while i < count
            invariant
                count == shard_ids@.len(),
                0 <= i <= count,
                self.status == Status::Reducing,
                count > 0 ==> self.shard_count > 0,
                start == old(self)@,
                self@ == (MachineView { merge_cursor: self.merge_cursor, ..start }),
                self@.merge_run(shard_ids@.skip(i as int)) == start.merge_run(shard_ids@),
                self@.merge_safe(shard_ids@.skip(i as int)),
            decreases count - i,
        {
            let ghost rest = shard_ids@.skip(i as int);
            assert(rest.drop_first() =~= shard_ids@.skip(i + 1));
            let sid = shard_ids[i];
            assert(rest[0] == sid);
            let len = self.len(sid);
            let s = self.shards[sid as usize];
            match reduce_step(self.merge_cursor, sid, s.epoch, self.epoch, s.reduce_cursor, len) {
                Ok(()) => {},
                Err(e) => {
                    assert(self@.verdict(self.merge_cursor, sid, s.reduce_cursor) == Err::<(), Error>(e));
                    assert(self@.merge_run(rest) == (Err::<(), Error>(e), self@));
                    return Err(e);
                },
            }
            self.merge_cursor = self.merge_cursor + 1;
            i = i + 1;
        }
        assert(shard_ids@.skip(count as int) =~= Seq::<u32>::empty());
        if self.merge_cursor == self.shard_count {
            self.status = Status::Reduced;
        }
        Ok(())
    }

    /// `begin_apply`: `Reduced` moves to `Applying`, restarting the done-shard count.
    pub fn begin_apply(&mut self) -> (r: Result<(), Error>)
        ensures
            (r, final(self)@) == old(self)@.begin_apply_next(),
    {
        if self.status != Status::Reduced {
            return Err(Error::WrongPhase);
        }
        if self.pull_enabled {
            return Err(Error::PullPushExclusive);
        }
        self.shards_done = 0;
        self.status = Status::Applying;
        Ok(())
    }

    /// `advance_apply`: applies the effect to up to `batch` members of `shard_id`;
    /// returns how many.
    pub fn advance_apply(&mut self, shard_id: u32, batch: u64) -> (r: Result<u64, Error>)
        requires
            old(self).status == Status::Applying && shard_id < old(self).shard_count ==> (shard_id as int)
                < old(self).shards.len(),
        ensures
            (r, final(self)@) == old(self)@.advance_apply_next(shard_id, batch),
    {
        if self.status != Status::Applying {
            return Err(Error::WrongPhase);
        }
        if shard_id >= self.shard_count {
            return Err(Error::ShardIdOutOfRange);
        }
        self.lazy_reset(shard_id);
        let len = self.len(shard_id);
        let mut s = self.shards[shard_id as usize];
        let n = match advance_step(s.apply_cursor, len, batch) {
            Ok(n) => n,
            Err(e) => return Err(e),
        };
        s.apply_cursor = s.apply_cursor + n;
        self.shards.set(shard_id as usize, s);
        assert(self@.shards =~= old(self)@.advance_apply_next(shard_id, batch).1.shards);
        Ok(n)
    }

    /// `skip`: the authority's escape for a poison member in APPLY; the cursor moves
    /// past it (after the lazy reset) and `apply_skipped` counts it.
    pub fn skip(&mut self, shard_id: u32) -> (r: Result<(), Error>)
        requires
            old(self).status == Status::Applying && shard_id < old(self).shard_count ==> (shard_id as int)
                < old(self).shards.len(),
            old(self)@.skip_next(shard_id).0 is Ok ==> old(self).apply_skipped < u64::MAX,
        ensures
            (r, final(self)@) == old(self)@.skip_next(shard_id),
    {
        if self.status != Status::Applying {
            return Err(Error::WrongPhase);
        }
        if shard_id >= self.shard_count {
            return Err(Error::ShardIdOutOfRange);
        }
        self.lazy_reset(shard_id);
        let len = self.len(shard_id);
        let mut s = self.shards[shard_id as usize];
        match skip_step(s.apply_cursor, len) {
            Ok(()) => {},
            Err(e) => return Err(e),
        }
        s.apply_cursor = s.apply_cursor + 1;
        self.shards.set(shard_id as usize, s);
        self.apply_skipped = self.apply_skipped + 1;
        assert(self@.shards =~= old(self)@.skip_next(shard_id).1.shards);
        Ok(())
    }

    /// `try_finish_apply`: counts fully applied shards in ascending order; `Done` once
    /// every shard is counted. Completion is cursor-derived, so a cursor moved by `skip`
    /// counts like a processed one.
    pub fn try_finish_apply(&mut self, shard_ids: &[u32]) -> (r: Result<(), Error>)
        requires
            old(self).status == Status::Applying ==> {
                &&& old(self)@.finish_safe(shard_ids@)
                &&& shard_ids@.len() > 0 ==> old(self).shard_count > 0
            },
        ensures
            (r, final(self)@) == old(self)@.try_finish_apply_next(shard_ids@),
    {
        if self.status != Status::Applying {
            return Err(Error::WrongPhase);
        }
        let ghost start = self@;
        let count = shard_ids.len();
        let mut i: usize = 0;
        assert(shard_ids@.skip(0) =~= shard_ids@);
        while i < count
            invariant
                count == shard_ids@.len(),
                0 <= i <= count,
                self.status == Status::Applying,
                count > 0 ==> self.shard_count > 0,
                start == old(self)@,
                self@ == (MachineView { shards_done: self.shards_done, ..start }),
                self@.finish_run(shard_ids@.skip(i as int)) == start.finish_run(shard_ids@),
                self@.finish_safe(shard_ids@.skip(i as int)),
            decreases count - i,
        {
            let ghost rest = shard_ids@.skip(i as int);
            assert(rest.drop_first() =~= shard_ids@.skip(i + 1));
            let sid = shard_ids[i];
            assert(rest[0] == sid);
            let len = self.len(sid);
            let s = self.shards[sid as usize];
            match apply_finish_step(self.shards_done, sid, s.epoch, self.epoch, s.apply_cursor, len) {
                Ok(()) => {},
                Err(e) => {
                    assert(self@.verdict(self.shards_done, sid, s.apply_cursor) == Err::<(), Error>(e));
                    assert(self@.finish_run(rest) == (Err::<(), Error>(e), self@));
                    return Err(e);
                },
            }
            self.shards_done = self.shards_done + 1;
            i = i + 1;
        }
        assert(shard_ids@.skip(count as int) =~= Seq::<u32>::empty());
        if self.shards_done == self.shard_count {
            self.status = Status::Done;
        }
        Ok(())
    }

    /// `finalize`: marks a `Done` effect finalized, once.
    pub fn finalize(&mut self) -> (r: Result<(), Error>)
        ensures
            (r, final(self)@) == old(self)@.finalize_next(),
    {
        if self.status != Status::Done {
            return Err(Error::WrongPhase);
        }
        if self.finalized {
            return Err(Error::AlreadyFinalized);
        }
        self.finalized = true;
        Ok(())
    }
}

impl MachineView {
    /// Shard `sid` finished REDUCE in the current epoch.
    pub open spec fn reduced(self, sid: int) -> bool {
        self.shards[sid].epoch == self.epoch && self.shards[sid].reduce_cursor == self.len(sid)
    }

    /// Shard `sid` finished APPLY in the current epoch.
    pub open spec fn applied(self, sid: int) -> bool {
        self.shards[sid].epoch == self.epoch && self.shards[sid].apply_cursor == self.len(sid)
    }

    /// The machine's invariant: every operation keeps it.
    pub open spec fn wf(self) -> bool {
        &&& self.shards.len() == self.shards_created
        &&& 1 <= self.shard_count
        &&& 1 <= self.epoch
        &&& self.merge_cursor <= self.shard_count
        &&& self.shards_done <= self.shard_count
        // a sealed effect has every shard and a valid partition; total is frozen
        &&& self.ever_sealed ==> self.shards_created == self.shard_count && self.shard_count
            <= self.total
        &&& !self.ever_sealed ==> (self.status == Status::Pending || self.status
            == Status::Cancelled) && self.merge_cursor == 0
        &&& self.status == Status::Pending ==> !self.ever_sealed
        &&& self.ever_sealed ==> !self.pull_enabled
        // no shard is ahead of the effect; an unsealed effect's shards are all stale
        &&& forall|i: int|
            0 <= i < self.shards.len() ==> (#[trigger] self.shards[i]).epoch <= self.epoch && (
            !self.ever_sealed ==> self.shards[i].epoch < self.epoch)
        // cursors of current-epoch shards never pass the shard's length
        &&& forall|i: int|
            0 <= i < self.shards.len() && (#[trigger] self.shards[i]).epoch == self.epoch ==> {
                &&& self.shards[i].reduce_cursor <= self.len(i)
                &&& self.shards[i].apply_cursor <= self.len(i)
            }
        // every merged shard is fully reduced; Reduced only once all are merged
        &&& (self.status == Status::Reducing || self.status == Status::Reduced) ==> forall|i: int|
            0 <= i < self.merge_cursor ==> #[trigger] self.reduced(i)
        &&& self.status == Status::Reduced ==> self.merge_cursor == self.shard_count
        // every counted shard is fully applied; Done only once all are counted
        &&& (self.status == Status::Applying || self.status == Status::Done) ==> forall|i: int|
            0 <= i < self.shards_done ==> #[trigger] self.applied(i)
        &&& self.status == Status::Done ==> self.shards_done == self.shard_count
    }
}

/// A new effect satisfies the invariant.
pub proof fn lemma_init_wf(
    shard_count: u32,
    requires_reduce: bool,
    order_independent: bool,
    pull_enabled: bool,
)
    ensures
        init_result(shard_count, requires_reduce, order_independent, pull_enabled) matches Ok(
            v,
        ) ==> v.wf(),
{
}

/// `enroll` keeps the invariant.
pub proof fn lemma_enroll_wf(v: MachineView, k: u64)
    requires
        v.wf(),
    ensures
        v.enroll_next(k).1.wf(),
{
}

/// `create_shards` keeps the invariant.
pub proof fn lemma_create_shards_wf(v: MachineView, n: u32)
    requires
        v.wf(),
        v.shards_created + n <= u32::MAX,
    ensures
        v.create_shards_next(n).1.wf(),
{
    let w = v.create_shards_next(n).1;
    if v.status == Status::Pending {
        assert forall|i: int| 0 <= i < w.shards.len() implies (#[trigger] w.shards[i]).epoch
            < w.epoch by {
            if i >= v.shards.len() {
                assert(w.shards[i] == fresh_shard());
            }
        }
    }
}

/// `seal` keeps the invariant.
pub proof fn lemma_seal_wf(v: MachineView)
    requires
        v.wf(),
    ensures
        v.seal_next().1.wf(),
{
    let w = v.seal_next().1;
    if v.seal_next().0 is Ok {
        assert forall|i: int|
            0 <= i < w.shards.len() && (#[trigger] w.shards[i]).epoch == w.epoch implies {
            &&& w.shards[i].reduce_cursor <= w.len(i)
            &&& w.shards[i].apply_cursor <= w.len(i)
        } by {
            assert(v.shards[i].epoch < v.epoch);
        }
    }
}

/// `cancel` keeps the invariant.
pub proof fn lemma_cancel_wf(v: MachineView)
    requires
        v.wf(),
    ensures
        v.cancel_next().1.wf(),
{
}

/// `reset` keeps the invariant.
pub proof fn lemma_reset_wf(v: MachineView)
    requires
        v.wf(),
        v.epoch < u64::MAX,
    ensures
        v.reset_next().1.wf(),
{
    let w = v.reset_next().1;
    if v.reset_next().0 is Ok {
        assert forall|i: int| 0 <= i < w.shards.len() implies (#[trigger] w.shards[i]).epoch
            < w.epoch by {
            assert(v.shards[i].epoch <= v.epoch);
        }
    }
}

/// Touching shard `sid` (the lazy reset) keeps the invariant and leaves it current.
proof fn lemma_touch_wf(v: MachineView, sid: int)
    requires
        v.wf(),
        v.ever_sealed,
        0 <= sid < v.shard_count,
    ensures
        v.with_shard(sid, v.touched(sid)).wf(),
        v.touched(sid).epoch == v.epoch,
        v.touched(sid).reduce_cursor <= v.len(sid),
        v.touched(sid).apply_cursor <= v.len(sid),
        v.touched(sid).epoch == v.shards[sid].epoch ==> v.touched(sid) == v.shards[sid],
{
    let w = v.with_shard(sid, v.touched(sid));
    assert(v.shards[sid].epoch <= v.epoch);
    assert forall|i: int| 0 <= i < v.merge_cursor && (v.status == Status::Reducing || v.status
        == Status::Reduced) implies #[trigger] w.reduced(i) by {
        assert(v.reduced(i));
    }
    assert forall|i: int| 0 <= i < v.shards_done && (v.status == Status::Applying || v.status
        == Status::Done) implies #[trigger] w.applied(i) by {
        assert(v.applied(i));
    }
}

/// `advance_reduce` keeps the invariant.
pub proof fn lemma_advance_reduce_wf(v: MachineView, sid: u32, batch: u64)
    requires
        v.wf(),
    ensures
        v.advance_reduce_next(sid, batch).1.wf(),
{
    if v.status == Status::Reducing && sid < v.shard_count {
        lemma_touch_wf(v, sid as int);
        let u = v.with_shard(sid as int, v.touched(sid as int));
        let w = v.advance_reduce_next(sid, batch).1;
        if v.advance_reduce_next(sid, batch).0 is Ok {
            assert forall|i: int| 0 <= i < w.merge_cursor implies #[trigger] w.reduced(i) by {
                assert(u.reduced(i));
                if i == sid {
                    assert(u.shards[i].reduce_cursor == u.len(i));
                }
            }
        }
    }
}

/// `skip_reduce` keeps the invariant.
pub proof fn lemma_skip_reduce_wf(v: MachineView, sid: u32)
    requires
        v.wf(),
    ensures
        v.skip_reduce_next(sid).1.wf(),
{
    if v.status == Status::Reducing && sid < v.shard_count {
        lemma_touch_wf(v, sid as int);
        let u = v.with_shard(sid as int, v.touched(sid as int));
        let w = v.skip_reduce_next(sid).1;
        if v.skip_reduce_next(sid).0 is Ok {
            assert forall|i: int| 0 <= i < w.merge_cursor implies #[trigger] w.reduced(i) by {
                assert(u.reduced(i));
            }
        }
    }
}

/// `advance_apply` keeps the invariant.
pub proof fn lemma_advance_apply_wf(v: MachineView, sid: u32, batch: u64)
    requires
        v.wf(),
    ensures
        v.advance_apply_next(sid, batch).1.wf(),
{
    if v.status == Status::Applying && sid < v.shard_count {
        lemma_touch_wf(v, sid as int);
        let u = v.with_shard(sid as int, v.touched(sid as int));
        let w = v.advance_apply_next(sid, batch).1;
        if v.advance_apply_next(sid, batch).0 is Ok {
            assert forall|i: int| 0 <= i < w.shards_done implies #[trigger] w.applied(i) by {
                assert(u.applied(i));
            }
        }
    }
}

/// `skip` keeps the invariant.
pub proof fn lemma_skip_wf(v: MachineView, sid: u32)
    requires
        v.wf(),
    ensures
        v.skip_next(sid).1.wf(),
{
    if v.status == Status::Applying && sid < v.shard_count {
        lemma_touch_wf(v, sid as int);
        let u = v.with_shard(sid as int, v.touched(sid as int));
        let w = v.skip_next(sid).1;
        if v.skip_next(sid).0 is Ok {
            assert forall|i: int| 0 <= i < w.shards_done implies #[trigger] w.applied(i) by {
                assert(u.applied(i));
            }
        }
    }
}

/// Merging keeps the invariant while in `Reducing`.
proof fn lemma_merge_run_wf(v: MachineView, ids: Seq<u32>)
    requires
        v.wf(),
        v.status == Status::Reducing,
        v.merge_safe(ids),
    ensures
        v.merge_run(ids).1.wf(),
        v.merge_run(ids).1 == (MachineView { merge_cursor: v.merge_run(ids).1.merge_cursor, ..v }),
    decreases ids.len(),
{
    if ids.len() > 0 {
        let sid = ids[0];
        if v.verdict(v.merge_cursor, sid, v.shards[sid as int].reduce_cursor) is Ok {
            lemma_partition_len_bounds(v.total as int, v.shard_count as int, sid as int);
            let w = MachineView { merge_cursor: (v.merge_cursor + 1) as u32, ..v };
            assert(v.reduced(sid as int));
            assert forall|i: int| 0 <= i < w.merge_cursor implies #[trigger] w.reduced(i) by {
                if i < v.merge_cursor {
                    assert(v.reduced(i));
                }
            }
            lemma_merge_run_wf(w, ids.drop_first());
        }
    }
}

/// `reduce_shards` keeps the invariant.
pub proof fn lemma_reduce_shards_wf(v: MachineView, ids: Seq<u32>)
    requires
        v.wf(),
        v.status == Status::Reducing ==> v.merge_safe(ids),
    ensures
        v.reduce_shards_next(ids).1.wf(),
{
    if v.status == Status::Reducing {
        lemma_merge_run_wf(v, ids);
        let w = v.merge_run(ids).1;
        if v.merge_run(ids).0 is Ok && w.merge_cursor == w.shard_count {
            let x = MachineView { status: Status::Reduced, ..w };
            assert forall|i: int| 0 <= i < x.merge_cursor implies #[trigger] x.reduced(i) by {
                assert(w.reduced(i));
            }
        }
    }
}

/// Counting done shards keeps the invariant while in `Applying`.
proof fn lemma_finish_run_wf(v: MachineView, ids: Seq<u32>)
    requires
        v.wf(),
        v.status == Status::Applying,
        v.finish_safe(ids),
    ensures
        v.finish_run(ids).1.wf(),
        v.finish_run(ids).1 == (MachineView { shards_done: v.finish_run(ids).1.shards_done, ..v }),
    decreases ids.len(),
{
    if ids.len() > 0 {
        let sid = ids[0];
        if v.verdict(v.shards_done, sid, v.shards[sid as int].apply_cursor) is Ok {
            lemma_partition_len_bounds(v.total as int, v.shard_count as int, sid as int);
            let w = MachineView { shards_done: (v.shards_done + 1) as u32, ..v };
            assert(v.applied(sid as int));
            assert forall|i: int| 0 <= i < w.shards_done implies #[trigger] w.applied(i) by {
                if i < v.shards_done {
                    assert(v.applied(i));
                }
            }
            lemma_finish_run_wf(w, ids.drop_first());
        }
    }
}

/// `try_finish_apply` keeps the invariant.
pub proof fn lemma_try_finish_apply_wf(v: MachineView, ids: Seq<u32>)
    requires
        v.wf(),
        v.status == Status::Applying ==> v.finish_safe(ids),
    ensures
        v.try_finish_apply_next(ids).1.wf(),
{
    if v.status == Status::Applying {
        lemma_finish_run_wf(v, ids);
        let w = v.finish_run(ids).1;
        if v.finish_run(ids).0 is Ok && w.shards_done == w.shard_count {
            let x = MachineView { status: Status::Done, ..w };
            assert forall|i: int| 0 <= i < x.shards_done implies #[trigger] x.applied(i) by {
                assert(w.applied(i));
            }
        }
    }
}

/// `begin_apply` keeps the invariant.
pub proof fn lemma_begin_apply_wf(v: MachineView)
    requires
        v.wf(),
    ensures
        v.begin_apply_next().1.wf(),
{
}

/// `finalize` keeps the invariant.
pub proof fn lemma_finalize_wf(v: MachineView)
    requires
        v.wf(),
    ensures
        v.finalize_next().1.wf(),
{
    let x = v.finalize_next().1;
    assert forall|i: int| 0 <= i < x.shards_done && x.status == Status::Done implies #[trigger] x.applied(i) by {
        assert(v.applied(i));
    }
}

/// The ids `from, from + 1, .., to - 1`, the ascending order the promotion ops take.
pub open spec fn ascending(from: int, to: int) -> Seq<u32> {
    Seq::new((to - from) as nat, |i: int| (from + i) as u32)
}

/// The batches that a keeper's steps `(shard id, batch)` hand to shard `sid`, added up.
pub open spec fn batch_sum(steps: Seq<(u32, u64)>, sid: int) -> int
    decreases steps.len(),
{
    if steps.len() == 0 {
        0
    } else {
        (if steps[0].0 as int == sid {
            steps[0].1 as int
        } else {
            0
        }) + batch_sum(steps.drop_first(), sid)
    }
}

/// `advance_apply` over the steps `(shard id, batch)` in order, whatever each returns.
pub open spec fn apply_batches(v: MachineView, steps: Seq<(u32, u64)>) -> MachineView
    decreases steps.len(),
{
    if steps.len() == 0 {
        v
    } else {
        apply_batches(v.advance_apply_next(steps[0].0, steps[0].1).1, steps.drop_first())
    }
}

/// `advance_reduce` over the steps `(shard id, batch)` in order, whatever each returns.
pub open spec fn reduce_batches(v: MachineView, steps: Seq<(u32, u64)>) -> MachineView
    decreases steps.len(),
{
    if steps.len() == 0 {
        v
    } else {
        reduce_batches(v.advance_reduce_next(steps[0].0, steps[0].1).1, steps.drop_first())
    }
}

/// A keeper's run of a sealed effect: in REDUCE, the `reduce_steps`, then the merge of
/// every shard in ascending order and `begin_apply`; then the `apply_steps` and the count
/// of every shard done in ascending order.
pub open spec fn keeper_run(
    v: MachineView,
    reduce_steps: Seq<(u32, u64)>,
    apply_steps: Seq<(u32, u64)>,
) -> MachineView {
    let a = if v.status == Status::Reducing {
        let r = reduce_batches(v, reduce_steps);
        let m = r.reduce_shards_next(ascending(r.merge_cursor as int, r.shard_count as int)).1;
        m.begin_apply_next().1
    } else {
        v
    };
    let c = apply_batches(a, apply_steps);
    c.try_finish_apply_next(ascending(c.shards_done as int, c.shard_count as int)).1
}

/// The sum of the APPLY cursors of shards `0..k`.
pub open spec fn applied_count(shards: Seq<ShardState>, k: int) -> int
    decreases k,
{
    if k <= 0 {
        0
    } else {
        applied_count(shards, k - 1) + shards[k - 1].apply_cursor
    }
}

proof fn lemma_finish_all(v: MachineView)
    requires
        v.wf(),
        v.status == Status::Applying,
        forall|j: int| 0 <= j < v.shard_count ==> #[trigger] v.applied(j),
    ensures
        v.finish_run(ascending(v.shards_done as int, v.shard_count as int)).0 is Ok,
        v.finish_safe(ascending(v.shards_done as int, v.shard_count as int)),
        v.finish_run(ascending(v.shards_done as int, v.shard_count as int)).1 == (MachineView {
            shards_done: v.shard_count,
            ..v
        }),
    decreases v.shard_count - v.shards_done,
{
    let ids = ascending(v.shards_done as int, v.shard_count as int);
    if v.shards_done < v.shard_count {
        let sid = ids[0];
        assert(sid == v.shards_done);
        lemma_partition_len_bounds(v.total as int, v.shard_count as int, sid as int);
        assert(v.applied(sid as int));
        let w = MachineView { shards_done: (v.shards_done + 1) as u32, ..v };
        assert forall|i: int| 0 <= i < w.shards_done implies #[trigger] w.applied(i) by {
            assert(v.applied(i));
        }
        assert forall|j: int| 0 <= j < w.shard_count implies #[trigger] w.applied(j) by {
            assert(v.applied(j));
        }
        lemma_finish_all(w);
        assert(ids.drop_first() =~= ascending(w.shards_done as int, w.shard_count as int));
    } else {
        assert(ids =~= Seq::<u32>::empty());
    }
}

proof fn lemma_merge_all(v: MachineView)
    requires
        v.wf(),
        v.status == Status::Reducing,
        forall|j: int| 0 <= j < v.shard_count ==> #[trigger] v.reduced(j),
    ensures
        v.merge_run(ascending(v.merge_cursor as int, v.shard_count as int)).0 is Ok,
        v.merge_safe(ascending(v.merge_cursor as int, v.shard_count as int)),
        v.merge_run(ascending(v.merge_cursor as int, v.shard_count as int)).1 == (MachineView {
            merge_cursor: v.shard_count,
            ..v
        }),
    decreases v.shard_count - v.merge_cursor,
{
    let ids = ascending(v.merge_cursor as int, v.shard_count as int);
    if v.merge_cursor < v.shard_count {
        let sid = ids[0];
        assert(sid == v.merge_cursor);
        lemma_partition_len_bounds(v.total as int, v.shard_count as int, sid as int);
        assert(v.reduced(sid as int));
        let w = MachineView { merge_cursor: (v.merge_cursor + 1) as u32, ..v };
        assert forall|i: int| 0 <= i < w.merge_cursor implies #[trigger] w.reduced(i) by {
            assert(v.reduced(i));
        }
        assert forall|j: int| 0 <= j < w.shard_count implies #[trigger] w.reduced(j) by {
            assert(v.reduced(j));
        }
        lemma_merge_all(w);
        assert(ids.drop_first() =~= ascending(w.merge_cursor as int, w.shard_count as int));
    } else {
        assert(ids =~= Seq::<u32>::empty());
    }
}

proof fn lemma_applied_count(v: MachineView, k: int)
    requires
        0 <= k <= v.shards.len(),
        v.shard_count >= 1,
        forall|j: int| 0 <= j < k ==> #[trigger] v.applied(j),
    ensures
        applied_count(v.shards, k) == len_prefix(v.total as int, v.shard_count as int, k),
    decreases k,
{
    if k > 0 {
        assert(v.applied(k - 1));
        lemma_applied_count(v, k - 1);
    }
}

/// Exactly-once coverage: once an effect is `Done`, the APPLY cursors of its shards
/// add up to `total`, so every member was applied (or skipped) exactly once.
pub proof fn lemma_done_covers_every_member(v: MachineView)
    requires
        v.wf(),
        v.status == Status::Done,
    ensures
        applied_count(v.shards, v.shard_count as int) == v.total,
        forall|j: int| 0 <= j < v.shard_count ==> #[trigger] v.applied(j),
{
    assert forall|j: int| 0 <= j < v.shard_count implies #[trigger] v.applied(j) by {
        assert(j < v.shards_done);
    }
    lemma_applied_count(v, v.shard_count as int);
    lemma_len_prefix_total(v.total as int, v.shard_count as int);
}

proof fn lemma_batch_sum_nonneg(steps: Seq<(u32, u64)>, sid: int)
    ensures
        batch_sum(steps, sid) >= 0,
    decreases steps.len(),
{
    if steps.len() > 0 {
        lemma_batch_sum_nonneg(steps.drop_first(), sid);
    }
}

/// `advance_apply` over any steps, of any batch sizes and in any order, keeps the
/// invariant and changes only the shards: each shard's APPLY cursor (after the lazy reset)
/// moves by the batches handed to it, up to the shard's length.
pub proof fn lemma_apply_batches(v: MachineView, steps: Seq<(u32, u64)>)
    requires
        v.wf(),
        v.status == Status::Applying,
    ensures
        apply_batches(v, steps).wf(),
        apply_batches(v, steps) == (MachineView { shards: apply_batches(v, steps).shards, ..v }),
        forall|j: int|
            0 <= j < v.shard_count ==> #[trigger] apply_batches(v, steps).touched(j).apply_cursor
                == min(v.len(j), v.touched(j).apply_cursor + batch_sum(steps, j)),
    decreases steps.len(),
{
    if steps.len() > 0 {
        let (sid, batch) = steps[0];
        let u = v.advance_apply_next(sid, batch).1;
        lemma_advance_apply_wf(v, sid, batch);
        if sid < v.shard_count {
            lemma_touch_wf(v, sid as int);
        }
        assert(u == (MachineView { shards: u.shards, ..v }));
        assert forall|j: int| 0 <= j < v.shard_count implies #[trigger] u.touched(j).apply_cursor
            == min(v.len(j), v.touched(j).apply_cursor + (if sid as int == j {
            batch as int
        } else {
            0
        })) by {
            lemma_touch_wf(v, j);
            let c = v.touched(j).apply_cursor as int;
            if sid < v.shard_count {
                if j == sid as int {
                    lemma_partition_len_bounds(v.total as int, v.shard_count as int, j);
                    let len = v.len(j);
                    assert(u.shards[j].epoch == v.epoch);
                    assert(u.touched(j) == u.shards[j]);
                    if c >= len {
                        assert(u.shards[j].apply_cursor == c);
                    } else {
                        let n = min_u64(batch, (len - c) as u64);
                        assert(u.shards[j].apply_cursor == c + n);
                    }
                } else {
                    assert(u.shards[j] == v.shards[j]);
                    assert(u.touched(j) == v.touched(j));
                }
            }
        }
        lemma_apply_batches(u, steps.drop_first());
        let w = apply_batches(v, steps);
        assert forall|j: int| 0 <= j < v.shard_count implies #[trigger] w.touched(j).apply_cursor
            == min(v.len(j), v.touched(j).apply_cursor + batch_sum(steps, j)) by {
            lemma_batch_sum_nonneg(steps.drop_first(), j);
            assert(w.touched(j).apply_cursor == min(u.len(j), u.touched(j).apply_cursor
                + batch_sum(steps.drop_first(), j)));
        }
    }
}

/// `advance_reduce` over any steps, of any batch sizes and in any order, keeps the
/// invariant and changes only the shards: each shard's REDUCE cursor (after the lazy
/// reset) moves by the batches handed to it, up to the shard's length.
pub proof fn lemma_reduce_batches(v: MachineView, steps: Seq<(u32, u64)>)
    requires
        v.wf(),
        v.status == Status::Reducing,
    ensures
        reduce_batches(v, steps).wf(),
        reduce_batches(v, steps) == (MachineView { shards: reduce_batches(v, steps).shards, ..v }),
        forall|j: int|
            0 <= j < v.shard_count ==> #[trigger] reduce_batches(v, steps).touched(j).reduce_cursor
                == min(v.len(j), v.touched(j).reduce_cursor + batch_sum(steps, j)),
    decreases steps.len(),
{
    if steps.len() > 0 {
        let (sid, batch) = steps[0];
        let u = v.advance_reduce_next(sid, batch).1;
        lemma_advance_reduce_wf(v, sid, batch);
        if sid < v.shard_count {
            lemma_touch_wf(v, sid as int);
        }
        assert(u == (MachineView { shards: u.shards, ..v }));
        assert forall|j: int| 0 <= j < v.shard_count implies #[trigger] u.touched(j).reduce_cursor
            == min(v.len(j), v.touched(j).reduce_cursor + (if sid as int == j {
            batch as int
        } else {
            0
        })) by {
            lemma_touch_wf(v, j);
            let c = v.touched(j).reduce_cursor as int;
            if sid < v.shard_count {
                if j == sid as int {
                    lemma_partition_len_bounds(v.total as int, v.shard_count as int, j);
                    let len = v.len(j);
                    assert(u.shards[j].epoch == v.epoch);
                    assert(u.touched(j) == u.shards[j]);
                    if c >= len {
                        assert(u.shards[j].reduce_cursor == c);
                    } else {
                        let n = min_u64(batch, (len - c) as u64);
                        assert(u.shards[j].reduce_cursor == c + n);
                    }
                } else {
                    assert(u.shards[j] == v.shards[j]);
                    assert(u.touched(j) == v.touched(j));
                }
            }
        }
        lemma_reduce_batches(u, steps.drop_first());
        let w = reduce_batches(v, steps);
        assert forall|j: int| 0 <= j < v.shard_count implies #[trigger] w.touched(j).reduce_cursor
            == min(v.len(j), v.touched(j).reduce_cursor + batch_sum(steps, j)) by {
            lemma_batch_sum_nonneg(steps.drop_first(), j);
            assert(w.touched(j).reduce_cursor == min(u.len(j), u.touched(j).reduce_cursor
                + batch_sum(steps.drop_first(), j)));
        }
    }
}

/// Once every shard is fully applied in the current epoch, `try_finish_apply` over the
/// shards in ascending order from `shards_done` succeeds and the effect is `Done`, with
/// nothing else changed; the result keeps the invariant and covers every member exactly
/// once.
pub proof fn lemma_applied_shards_finish(v: MachineView)
    requires
        v.wf(),
        v.status == Status::Applying,
        forall|j: int| 0 <= j < v.shard_count ==> #[trigger] v.applied(j),
    ensures
        v.finish_safe(ascending(v.shards_done as int, v.shard_count as int)),
        v.try_finish_apply_next(ascending(v.shards_done as int, v.shard_count as int)) == (
            Ok::<(), Error>(()),
            MachineView { shards_done: v.shard_count, status: Status::Done, ..v },
        ),
        v.try_finish_apply_next(ascending(v.shards_done as int, v.shard_count as int)).1.wf(),
        applied_count(v.shards, v.shard_count as int) == v.total,
{
    let ids = ascending(v.shards_done as int, v.shard_count as int);
    lemma_finish_all(v);
    lemma_try_finish_apply_wf(v, ids);
    lemma_done_covers_every_member(v.try_finish_apply_next(ids).1);
}

/// Once every shard is fully reduced in the current epoch, `reduce_shards` over the
/// shards in ascending order from `merge_cursor` succeeds and the effect is `Reduced`;
/// the result keeps the invariant.
pub proof fn lemma_reduced_shards_merge(v: MachineView)
    requires
        v.wf(),
        v.status == Status::Reducing,
        forall|j: int| 0 <= j < v.shard_count ==> #[trigger] v.reduced(j),
    ensures
        v.merge_safe(ascending(v.merge_cursor as int, v.shard_count as int)),
        v.reduce_shards_next(ascending(v.merge_cursor as int, v.shard_count as int)) == (
            Ok::<(), Error>(()),
            MachineView { merge_cursor: v.shard_count, status: Status::Reduced, ..v },
        ),
        v.reduce_shards_next(ascending(v.merge_cursor as int, v.shard_count as int)).1.wf(),
{
    let ids = ascending(v.merge_cursor as int, v.shard_count as int);
    lemma_merge_all(v);
    lemma_reduce_shards_wf(v, ids);
}

/// Liveness: a keeper brings every sealed effect in a work phase to `Done`, whatever the
/// batch sizes and the order of its cranks, as long as the batches it hands each shard
/// add up to the shard's length in each phase (a batch past the end is refused
/// harmlessly). It merges in ascending order and, for a two-phase effect, begins APPLY in
/// between. The result keeps the invariant, covers every member exactly once, and can be
/// finalized unless it already was.
pub proof fn lemma_sealed_effect_reaches_done(
    v: MachineView,
    reduce_steps: Seq<(u32, u64)>,
    apply_steps: Seq<(u32, u64)>,
)
    requires
        v.wf(),
        v.status == Status::Reducing || v.status == Status::Applying,
        v.status == Status::Reducing ==> forall|j: int|
            0 <= j < v.shard_count ==> #[trigger] batch_sum(reduce_steps, j) >= v.len(j),
        forall|j: int| 0 <= j < v.shard_count ==> #[trigger] batch_sum(apply_steps, j) >= v.len(j),
    ensures
        keeper_run(v, reduce_steps, apply_steps).status == Status::Done,
        keeper_run(v, reduce_steps, apply_steps).wf(),
        keeper_run(v, reduce_steps, apply_steps).total == v.total,
        keeper_run(v, reduce_steps, apply_steps).epoch == v.epoch,
        keeper_run(v, reduce_steps, apply_steps).shards_done == v.shard_count,
        applied_count(keeper_run(v, reduce_steps, apply_steps).shards, v.shard_count as int)
            == v.total,
        keeper_run(v, reduce_steps, apply_steps).finalize_next().0 == (if v.finalized {
            Err::<(), Error>(Error::AlreadyFinalized)
        } else {
            Ok::<(), Error>(())
        }),
{
    let a = if v.status == Status::Reducing {
        let r = reduce_batches(v, reduce_steps);
        lemma_reduce_batches(v, reduce_steps);
        assert forall|j: int| 0 <= j < r.shard_count implies #[trigger] r.reduced(j) by {
            lemma_partition_nonempty(v.total as int, v.shard_count as int, j);
            lemma_touch_wf(r, j);
            lemma_touch_wf(v, j);
            assert(r.touched(j).reduce_cursor == r.len(j));
        }
        lemma_reduced_shards_merge(r);
        let m = r.reduce_shards_next(ascending(r.merge_cursor as int, r.shard_count as int)).1;
        lemma_begin_apply_wf(m);
        m.begin_apply_next().1
    } else {
        v
    };
    assert(a.wf() && a.status == Status::Applying && a.total == v.total && a.epoch == v.epoch
        && a.shard_count == v.shard_count && a.finalized == v.finalized);
    let c = apply_batches(a, apply_steps);
    lemma_apply_batches(a, apply_steps);
    assert forall|j: int| 0 <= j < c.shard_count implies #[trigger] c.applied(j) by {
        lemma_partition_nonempty(v.total as int, v.shard_count as int, j);
        lemma_touch_wf(c, j);
        lemma_touch_wf(a, j);
        assert(c.touched(j).apply_cursor == c.len(j));
    }
    lemma_applied_shards_finish(c);
}

} // verus!
