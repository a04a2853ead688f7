//! Byte layouts of the freshet accounts. Multi-byte fields are little-endian and read
//! or written by copy at fixed offsets, so no field is ever referenced unaligned.
//!
//! Effect (296 bytes): disc 0, version 8, status 9, bump 10, flags 11, rule_id 12,
//! shard_count 14, shards_done 18, merge_cursor 22, epoch 26, total 34,
//! reduce_skipped_count 42, authority 50, acc_global 82, params 146, created_slot 274,
//! apply_skipped_count 282, shards_created 290.
//! Shard (152 bytes): disc 0, version 8, bump 9, shard_id 12, effect 16, epoch 48,
//! reduce_cursor 56, apply_cursor 64, acc_partial 72.
//! Escrow (64 bytes): disc 0, version 8, bump 9, effect 10, shard_id 42, bounty_per 46,
//! last_refund_epoch 54.
//! Member header (66 bytes; the consumer body starts at 72): disc 0, version 8, bump 9,
//! effect 10, index 42, last_reduce_epoch 50, last_apply_epoch 58.
use crate::bytes::{
    get_u32, get_u64, lemma_put_u32, lemma_put_u64, put, put_u32, put_u64, read_u32, read_u64, write_bytes, write_u32,
    write_u64,
};
use crate::monoid::zeros;
use crate::state::{status_code, status_of_code, Error as CoreErr, Status};
use vstd::prelude::*;

verus! {

/// "FRSHEFCT"
pub const DISC_EFFECT: [u8; 8] = [70, 82, 83, 72, 69, 70, 67, 84];
/// "FRSHSHRD"
pub const DISC_SHARD: [u8; 8] = [70, 82, 83, 72, 83, 72, 82, 68];
/// "FRSHESCR"
pub const DISC_ESCROW: [u8; 8] = [70, 82, 83, 72, 69, 83, 67, 82];
/// "FRSHMMBR"
pub const DISC_MEMBER: [u8; 8] = [70, 82, 83, 72, 77, 77, 66, 82];

pub const VERSION_EFFECT: u8 = 2;
pub const VERSION_SHARD: u8 = 1;
pub const VERSION_ESCROW: u8 = 1;
pub const VERSION_MEMBER: u8 = 1;

// Flag bits of `Effect.flags`.
pub const FLAG_SHARDED: u8 = 1;
pub const FLAG_REQUIRES_REDUCE: u8 = 2;
pub const FLAG_ORDER_INDEPENDENT: u8 = 4;
pub const FLAG_PULL: u8 = 8;
pub const FLAG_ACC_EXTERNAL: u8 = 16;
pub const FLAG_FINALIZED: u8 = 32;

pub const EFFECT_LEN: usize = 296;
pub const SHARD_LEN: usize = 152;
pub const ESCROW_LEN: usize = 64;
pub const MEMBER_HEADER_LEN: usize = 66;
/// The consumer member body begins at this 8-aligned offset.
pub const MEMBER_BODY_OFFSET: usize = 72;
/// The demo consumer's body: one little-endian `u64`.
pub const MEMBER_BODY: usize = 8;
pub const MEMBER_LEN: usize = 80;

// Effect field offsets.
pub const EFFECT_VERSION: usize = 8;
pub const EFFECT_STATUS: usize = 9;
pub const EFFECT_BUMP: usize = 10;
pub const EFFECT_FLAGS: usize = 11;
pub const EFFECT_SHARD_COUNT: usize = 14;
pub const EFFECT_SHARDS_DONE: usize = 18;
pub const EFFECT_MERGE_CURSOR: usize = 22;
pub const EFFECT_EPOCH: usize = 26;
pub const EFFECT_TOTAL: usize = 34;
pub const EFFECT_REDUCE_SKIPPED: usize = 42;
pub const EFFECT_AUTHORITY: usize = 50;
pub const EFFECT_ACC_GLOBAL: usize = 82;
pub const EFFECT_PARAMS: usize = 146;
pub const EFFECT_APPLY_SKIPPED: usize = 282;
pub const EFFECT_SHARDS_CREATED: usize = 290;

// Shard field offsets.
pub const SHARD_VERSION: usize = 8;
pub const SHARD_BUMP: usize = 9;
pub const SHARD_ID: usize = 12;
pub const SHARD_EFFECT: usize = 16;
pub const SHARD_EPOCH: usize = 48;
pub const SHARD_REDUCE_CURSOR: usize = 56;
pub const SHARD_APPLY_CURSOR: usize = 64;
pub const SHARD_ACC_PARTIAL: usize = 72;

// Escrow field offsets.
pub const ESCROW_VERSION: usize = 8;
pub const ESCROW_BUMP: usize = 9;
pub const ESCROW_EFFECT: usize = 10;
pub const ESCROW_SHARD_ID: usize = 42;
pub const ESCROW_BOUNTY_PER: usize = 46;
pub const ESCROW_LAST_REFUND_EPOCH: usize = 54;

// Member header field offsets.
pub const MEMBER_VERSION: usize = 8;
pub const MEMBER_BUMP: usize = 9;
pub const MEMBER_EFFECT: usize = 10;
pub const MEMBER_INDEX: usize = 42;
pub const MEMBER_LAST_REDUCE_EPOCH: usize = 50;
pub const MEMBER_LAST_APPLY_EPOCH: usize = 58;

/// The 32-byte address stored at `d[off..off + 32]`.
pub open spec fn key_at(d: Seq<u8>, off: int) -> Seq<u8> {
    d.subrange(off, off + 32)
}

/// A shard's bytes after the lazy per-epoch reset: a shard left from an earlier epoch has
/// both cursors and its partial accumulator cleared and is stamped with `epoch`.
pub open spec fn shard_lazy_reset_bytes(d: Seq<u8>, epoch: u64) -> Seq<u8> {
    if get_u64(d, SHARD_EPOCH as int) < epoch {
        put_u64(
            put(
                put_u64(put_u64(d, SHARD_REDUCE_CURSOR as int, 0), SHARD_APPLY_CURSOR as int, 0),
                SHARD_ACC_PARTIAL as int,
                zeros(64),
            ),
            SHARD_EPOCH as int,
            epoch,
        )
    } else {
        d
    }
}

/// The universal lazy per-epoch reset, run by every shard-mutating handler before it
/// reads a cursor, so a skip as the first touch cannot advance a stale cursor.
pub fn shard_lazy_reset(d: &mut Vec<u8>, epoch: u64)
    requires
        old(d)@.len() >= SHARD_LEN,
    ensures
        final(d)@ == shard_lazy_reset_bytes(old(d)@, epoch),
{
    let stamp = crate::bytes::read_u64(d.as_slice(), SHARD_EPOCH);
    if stamp < epoch {
        write_u64(d, SHARD_REDUCE_CURSOR, 0);
        write_u64(d, SHARD_APPLY_CURSOR, 0);
        let z = crate::bytes::zero_window();
        write_bytes(d, SHARD_ACC_PARTIAL, &z);
        write_u64(d, SHARD_EPOCH, epoch);
    }
}

/// The checked status of an effect: its status byte decoded, `BadStatus` for `>= 6`.
pub fn effect_status(d: &[u8]) -> (r: Result<Status, CoreErr>)
    requires
        d@.len() > EFFECT_STATUS,
    ensures
        r == status_of_code(d@[EFFECT_STATUS as int]),
{
    Status::try_from(d[EFFECT_STATUS])
}

/// The bytes of an effect account, read and written by copy at the layout's offsets.
pub struct Effect {
    pub bytes: Vec<u8>,
}

impl Effect {
    /// The bytes hold a whole effect.
    pub open spec fn wf(&self) -> bool {
        self.bytes@.len() >= EFFECT_LEN
    }

    /// Pull mode is on.
    pub fn pull_enabled(&self) -> (r: bool)
        requires
            self.wf(),
        ensures
            r == (self.bytes@[EFFECT_FLAGS as int] & FLAG_PULL != 0),
    {
        self.bytes[EFFECT_FLAGS] & FLAG_PULL != 0
    }

    /// The effect runs a REDUCE phase before APPLY.
    pub fn requires_reduce(&self) -> (r: bool)
        requires
            self.wf(),
        ensures
            r == (self.bytes@[EFFECT_FLAGS as int] & FLAG_REQUIRES_REDUCE != 0),
    {
        self.bytes[EFFECT_FLAGS] & FLAG_REQUIRES_REDUCE != 0
    }

    /// The checked status: a byte `>= 6` is `BadStatus`.
    pub fn status(&self) -> (r: Result<Status, CoreErr>)
        requires
            self.wf(),
        ensures
            r == status_of_code(self.bytes@[EFFECT_STATUS as int]),
    {
        Status::try_from(self.bytes[EFFECT_STATUS])
    }

    /// Stores the status byte.
    pub fn set_status(&mut self, s: Status)
        requires
            old(self).wf(),
        ensures
            final(self).bytes@ == old(self).bytes@.update(EFFECT_STATUS as int, status_code(s)),
            final(self).wf(),
    {
        self.bytes.set(EFFECT_STATUS, s.to_u8());
    }

    /// The current epoch.
    pub fn epoch(&self) -> (r: u64)
        requires
            self.wf(),
        ensures
            r == get_u64(self.bytes@, EFFECT_EPOCH as int),
    {
        read_u64(self.bytes.as_slice(), EFFECT_EPOCH)
    }

    /// Stores the epoch.
    pub fn set_epoch(&mut self, v: u64)
        requires
            old(self).wf(),
        ensures
            final(self).bytes@ == put_u64(old(self).bytes@, EFFECT_EPOCH as int, v),
            final(self).wf(),
    {
        proof {
            lemma_put_u64(self.bytes@, EFFECT_EPOCH as int, v);
        }
        write_u64(&mut self.bytes, EFFECT_EPOCH, v);
    }

    /// The number of enrolled members.
    pub fn total(&self) -> (r: u64)
        requires
            self.wf(),
        ensures
            r == get_u64(self.bytes@, EFFECT_TOTAL as int),
    {
        read_u64(self.bytes.as_slice(), EFFECT_TOTAL)
    }

    /// The number of shards.
    pub fn shard_count(&self) -> (r: u32)
        requires
            self.wf(),
        ensures
            r == get_u32(self.bytes@, EFFECT_SHARD_COUNT as int),
    {
        read_u32(self.bytes.as_slice(), EFFECT_SHARD_COUNT)
    }

    /// Shards counted done in APPLY.
    pub fn shards_done(&self) -> (r: u32)
        requires
            self.wf(),
        ensures
            r == get_u32(self.bytes@, EFFECT_SHARDS_DONE as int),
    {
        read_u32(self.bytes.as_slice(), EFFECT_SHARDS_DONE)
    }

    /// Stores the done-shard counter.
    pub fn set_shards_done(&mut self, v: u32)
        requires
            old(self).wf(),
        ensures
            final(self).bytes@ == put_u32(old(self).bytes@, EFFECT_SHARDS_DONE as int, v),
            final(self).wf(),
    {
        proof {
            lemma_put_u32(self.bytes@, EFFECT_SHARDS_DONE as int, v);
        }
        write_u32(&mut self.bytes, EFFECT_SHARDS_DONE, v);
    }

    /// The next shard to merge in REDUCE.
    pub fn merge_cursor(&self) -> (r: u32)
        requires
            self.wf(),
        ensures
            r == get_u32(self.bytes@, EFFECT_MERGE_CURSOR as int),
    {
        read_u32(self.bytes.as_slice(), EFFECT_MERGE_CURSOR)
    }

    /// Stores the merge cursor.
    pub fn set_merge_cursor(&mut self, v: u32)
        requires
            old(self).wf(),
        ensures
            final(self).bytes@ == put_u32(old(self).bytes@, EFFECT_MERGE_CURSOR as int, v),
            final(self).wf(),
    {
        proof {
            lemma_put_u32(self.bytes@, EFFECT_MERGE_CURSOR as int, v);
        }
        write_u32(&mut self.bytes, EFFECT_MERGE_CURSOR, v);
    }

    /// Shards initialized so far.
    pub fn shards_created(&self) -> (r: u32)
        requires
            self.wf(),
        ensures
            r == get_u32(self.bytes@, EFFECT_SHARDS_CREATED as int),
    {
        read_u32(self.bytes.as_slice(), EFFECT_SHARDS_CREATED)
    }
}

/// The bytes of a shard account.
pub struct Shard {
    pub bytes: Vec<u8>,
}

impl Shard {
    /// The bytes hold a whole shard.
    pub open spec fn wf(&self) -> bool {
        self.bytes@.len() >= SHARD_LEN
    }

    /// The shard's id.
    pub fn shard_id(&self) -> (r: u32)
        requires
            self.wf(),
        ensures
            r == get_u32(self.bytes@, SHARD_ID as int),
    {
        read_u32(self.bytes.as_slice(), SHARD_ID)
    }

    /// The epoch the shard was last reset in.
    pub fn epoch(&self) -> (r: u64)
        requires
            self.wf(),
        ensures
            r == get_u64(self.bytes@, SHARD_EPOCH as int),
    {
        read_u64(self.bytes.as_slice(), SHARD_EPOCH)
    }

    /// Stores the shard's epoch.
    pub fn set_epoch(&mut self, v: u64)
        requires
            old(self).wf(),
        ensures
            final(self).bytes@ == put_u64(old(self).bytes@, SHARD_EPOCH as int, v),
            final(self).wf(),
    {
        proof {
            lemma_put_u64(self.bytes@, SHARD_EPOCH as int, v);
        }
        write_u64(&mut self.bytes, SHARD_EPOCH, v);
    }

    /// The REDUCE cursor.
    pub fn reduce_cursor(&self) -> (r: u64)
        requires
            self.wf(),
        ensures
            r == get_u64(self.bytes@, SHARD_REDUCE_CURSOR as int),
    {
        read_u64(self.bytes.as_slice(), SHARD_REDUCE_CURSOR)
    }

    /// Stores the REDUCE cursor.
    pub fn set_reduce_cursor(&mut self, v: u64)
        requires
            old(self).wf(),
        ensures
            final(self).bytes@ == put_u64(old(self).bytes@, SHARD_REDUCE_CURSOR as int, v),
            final(self).wf(),
    {
        proof {
            lemma_put_u64(self.bytes@, SHARD_REDUCE_CURSOR as int, v);
        }
        write_u64(&mut self.bytes, SHARD_REDUCE_CURSOR, v);
    }

    /// The APPLY cursor.
    pub fn apply_cursor(&self) -> (r: u64)
        requires
            self.wf(),
        ensures
            r == get_u64(self.bytes@, SHARD_APPLY_CURSOR as int),
    {
        read_u64(self.bytes.as_slice(), SHARD_APPLY_CURSOR)
    }

    /// Stores the APPLY cursor.
    pub fn set_apply_cursor(&mut self, v: u64)
        requires
            old(self).wf(),
        ensures
            final(self).bytes@ == put_u64(old(self).bytes@, SHARD_APPLY_CURSOR as int, v),
            final(self).wf(),
    {
        proof {
            lemma_put_u64(self.bytes@, SHARD_APPLY_CURSOR as int, v);
        }
        write_u64(&mut self.bytes, SHARD_APPLY_CURSOR, v);
    }

    /// The lazy per-epoch reset of this shard.
    pub fn lazy_reset(&mut self, epoch: u64)
        requires
            old(self).wf(),
        ensures
            final(self).bytes@ == shard_lazy_reset_bytes(old(self).bytes@, epoch),
            final(self).wf(),
    {
        proof {
            lemma_put_u64(self.bytes@, SHARD_REDUCE_CURSOR as int, 0);
            lemma_put_u64(put_u64(self.bytes@, SHARD_REDUCE_CURSOR as int, 0), SHARD_APPLY_CURSOR as int, 0);
            lemma_put_u64(put(put_u64(put_u64(self.bytes@, SHARD_REDUCE_CURSOR as int, 0), SHARD_APPLY_CURSOR as int, 0), SHARD_ACC_PARTIAL as int, zeros(64)), SHARD_EPOCH as int, epoch);
        }
        shard_lazy_reset(&mut self.bytes, epoch);
    }
}

/// The bytes of an escrow account.
pub struct Escrow {
    pub bytes: Vec<u8>,
}

impl Escrow {
    /// The bytes hold a whole escrow.
    pub open spec fn wf(&self) -> bool {
        self.bytes@.len() >= ESCROW_LEN
    }

    /// The shard the escrow pays for.
    pub fn shard_id(&self) -> (r: u32)
        requires
            self.wf(),
        ensures
            r == get_u32(self.bytes@, ESCROW_SHARD_ID as int),
    {
        read_u32(self.bytes.as_slice(), ESCROW_SHARD_ID)
    }

    /// The bounty per processed member.
    pub fn bounty_per(&self) -> (r: u64)
        requires
            self.wf(),
        ensures
            r == get_u64(self.bytes@, ESCROW_BOUNTY_PER as int),
    {
        read_u64(self.bytes.as_slice(), ESCROW_BOUNTY_PER)
    }

    /// The epoch of the last refund.
    pub fn last_refund_epoch(&self) -> (r: u64)
        requires
            self.wf(),
        ensures
            r == get_u64(self.bytes@, ESCROW_LAST_REFUND_EPOCH as int),
    {
        read_u64(self.bytes.as_slice(), ESCROW_LAST_REFUND_EPOCH)
    }

    /// Stores the epoch of the last refund.
    pub fn set_last_refund_epoch(&mut self, v: u64)
        requires
            old(self).wf(),
        ensures
            final(self).bytes@ == put_u64(old(self).bytes@, ESCROW_LAST_REFUND_EPOCH as int, v),
            final(self).wf(),
    {
        proof {
            lemma_put_u64(self.bytes@, ESCROW_LAST_REFUND_EPOCH as int, v);
        }
        write_u64(&mut self.bytes, ESCROW_LAST_REFUND_EPOCH, v);
    }
}

/// The bytes of a member account (header, then the consumer body).
pub struct MemberHeader {
    pub bytes: Vec<u8>,
}

impl MemberHeader {
    /// The bytes hold a whole member header.
    pub open spec fn wf(&self) -> bool {
        self.bytes@.len() >= MEMBER_HEADER_LEN
    }

    /// The member's global index.
    pub fn index(&self) -> (r: u64)
        requires
            self.wf(),
        ensures
            r == get_u64(self.bytes@, MEMBER_INDEX as int),
    {
        read_u64(self.bytes.as_slice(), MEMBER_INDEX)
    }

    /// The epoch the member was last reduced in.
    pub fn last_reduce_epoch(&self) -> (r: u64)
        requires
            self.wf(),
        ensures
            r == get_u64(self.bytes@, MEMBER_LAST_REDUCE_EPOCH as int),
    {
        read_u64(self.bytes.as_slice(), MEMBER_LAST_REDUCE_EPOCH)
    }

    /// Stamps the REDUCE epoch.
    pub fn set_last_reduce_epoch(&mut self, v: u64)
        requires
            old(self).wf(),
        ensures
            final(self).bytes@ == put_u64(old(self).bytes@, MEMBER_LAST_REDUCE_EPOCH as int, v),
            final(self).wf(),
    {
        proof {
            lemma_put_u64(self.bytes@, MEMBER_LAST_REDUCE_EPOCH as int, v);
        }
        write_u64(&mut self.bytes, MEMBER_LAST_REDUCE_EPOCH, v);
    }

    /// The epoch the member was last applied in.
    pub fn last_apply_epoch(&self) -> (r: u64)
        requires
            self.wf(),
        ensures
            r == get_u64(self.bytes@, MEMBER_LAST_APPLY_EPOCH as int),
    {
        read_u64(self.bytes.as_slice(), MEMBER_LAST_APPLY_EPOCH)
    }

    /// Stamps the APPLY epoch.
    pub fn set_last_apply_epoch(&mut self, v: u64)
        requires
            old(self).wf(),
        ensures
            final(self).bytes@ == put_u64(old(self).bytes@, MEMBER_LAST_APPLY_EPOCH as int, v),
            final(self).wf(),
    {
        proof {
            lemma_put_u64(self.bytes@, MEMBER_LAST_APPLY_EPOCH as int, v);
        }
        write_u64(&mut self.bytes, MEMBER_LAST_APPLY_EPOCH, v);
    }
}

} // verus!
