//! Slots: a period and a thread.
use crate::serialization::{extend_bytes, tail, u8_from_slice, ModelsError, SerializationContext};
use crate::varint::{spec_decode_u64, spec_encode_varint, u64_from_varint_bytes, u64_to_varint_bytes};
use vstd::prelude::*;

verus! {

/// A slot: a period, and a thread within it.
#[derive(Clone, Copy, Debug, PartialEq, Eq, Structural)]
pub struct Slot {
    pub period: u64,
    pub thread: u8,
}

/// The compact form of a slot: the period as a variable-length integer, then
/// the thread as one byte.
pub open spec fn spec_slot_bytes(slot: Slot) -> Seq<u8> {
    spec_encode_varint(slot.period as nat) + seq![slot.thread]
}

/// Reading a slot from the front of `s` when blocks have `parent_count`
/// threads: the slot and the number of bytes read.
pub open spec fn spec_parse_slot(s: Seq<u8>, parent_count: u8) -> Result<(Slot, nat), ModelsError> {
    match spec_decode_u64(s) {
        Err(e) => Err(ModelsError::VarIntError(e)),
        Ok((period, n)) => if s.len() <= n {
            Err(ModelsError::BufferError)
        } else if s[n as int] >= parent_count {
            Err(ModelsError::InvalidThreadNumber)
        } else {
            Ok((Slot { period: period as u64, thread: s[n as int] }, n + 1))
        },
    }
}

/// A slot written and read back is the same slot, and reading stops where
/// its bytes end, whatever follows them; the thread must exist.
pub proof fn lemma_slot_roundtrip(slot: Slot, rest: Seq<u8>, parent_count: u8)
    requires
        slot.thread < parent_count,
    ensures
        spec_parse_slot(spec_slot_bytes(slot) + rest, parent_count) == Ok::<(Slot, nat), ModelsError>(
            (slot, spec_slot_bytes(slot).len()),
        ),
{
    let e = spec_encode_varint(slot.period as nat);
    let s = spec_slot_bytes(slot) + rest;
    let tail = seq![slot.thread] + rest;
    assert(s =~= e + tail);
    crate::varint::lemma_u64_roundtrip(slot.period, tail);
    assert(s[e.len() as int] == slot.thread);
}

/// Whatever reads as a slot is the compact form of that slot.
pub proof fn lemma_slot_canonical(s: Seq<u8>, parent_count: u8)
    requires
        spec_parse_slot(s, parent_count) is Ok,
    ensures
        ({
            let (slot, n) = spec_parse_slot(s, parent_count)->Ok_0;
            &&& spec_slot_bytes(slot) == s.take(n as int)
            &&& n <= s.len()
            &&& slot.thread < parent_count
        }),
{
    crate::varint::lemma_encode_decode(s, 10, u64::MAX as nat);
    let (period, n) = spec_decode_u64(s)->Ok_0;
    assert(s.take(n + 1 as int) =~= s.take(n as int) + seq![s[n as int]]);
}

/// The compact form of a slot is the period, as a variable-length integer
/// that reads back as the period, followed by one byte that is the thread
/// number itself.
pub proof fn law_slot_bytes_layout(slot: Slot)
    ensures
        ({
            let b = spec_slot_bytes(slot);
            &&& b.len() >= 2
            &&& b.last() == slot.thread
            &&& b.drop_last() == spec_encode_varint(slot.period as nat)
            &&& spec_decode_u64(b) == Ok::<(nat, nat), crate::varint::VarIntError>(
                (slot.period as nat, (b.len() - 1) as nat),
            )
            &&& crate::varint::payload_value(b.drop_last()) == slot.period
        }),
{
    let b = spec_slot_bytes(slot);
    let e = spec_encode_varint(slot.period as nat);
    assert(b.drop_last() =~= e);
    crate::varint::lemma_encode_shape(slot.period as nat);
    crate::varint::lemma_u64_roundtrip(slot.period, seq![slot.thread]);
}

/// A slot read from bytes takes its thread from the byte that follows the
/// period, as that byte is, and its period from the variable-length integer
/// in front; the thread is below the number of threads.
pub proof fn law_slot_parse_reads_thread_byte(s: Seq<u8>, parent_count: u8)
    requires
        spec_parse_slot(s, parent_count) is Ok,
    ensures
        ({
            let (slot, n) = spec_parse_slot(s, parent_count)->Ok_0;
            &&& 2 <= n <= s.len()
            &&& slot.thread == s[n - 1]
            &&& slot.thread < parent_count
            &&& spec_decode_u64(s) == Ok::<(nat, nat), crate::varint::VarIntError>(
                (slot.period as nat, (n - 1) as nat),
            )
        }),
{
    crate::varint::lemma_encode_decode(s, 10, u64::MAX as nat);
}

impl Slot {
    /// The slot of the given period and thread.
    pub fn new(period: u64, thread: u8) -> (slot: Slot)
        ensures
            slot.period == period,
            slot.thread == thread,
    {
        Slot { period, thread }
    }

    /// The compact form of the slot.
    pub fn to_bytes_compact(&self) -> (res: Result<Vec<u8>, ModelsError>)
        ensures
            res matches Ok(bytes) && bytes@ == spec_slot_bytes(*self),
            res matches Ok(bytes) && bytes@.len() >= 2 && bytes@.last() == self.thread
                && bytes@.drop_last() == spec_encode_varint(self.period as nat),
    {
        let mut res: Vec<u8> = Vec::new();
        let period = u64_to_varint_bytes(self.period);
        extend_bytes(&mut res, period.as_slice());
        res.push(self.thread);
        assert(res@ =~= spec_slot_bytes(*self));
        proof {
            law_slot_bytes_layout(*self);
        }
        Ok(res)
    }

    /// Reads a slot from the front of `buffer`: the slot and the number of
    /// bytes read.
    pub fn from_bytes_compact(buffer: &[u8], context: &SerializationContext) -> (res: Result<
        (Slot, usize),
        ModelsError,
    >)
        ensures
            match res {
                Ok((slot, n)) => spec_parse_slot(buffer@, context.parent_count) == Ok::<
                    (Slot, nat),
                    ModelsError,
                >((slot, n as nat)) && 2 <= n <= buffer@.len() && slot.thread == buffer@[n - 1]
                    && spec_decode_u64(buffer@) == Ok::<(nat, nat), crate::varint::VarIntError>(
                    (slot.period as nat, (n - 1) as nat),
                ),
                Err(e) => spec_parse_slot(buffer@, context.parent_count) == Err::<
                    (Slot, nat),
                    ModelsError,
                >(e),
            },
    {
        let mut cursor: usize = 0;
        let (period, delta) = match u64_from_varint_bytes(buffer) {
            Ok(r) => r,
            Err(e) => {
                return Err(ModelsError::VarIntError(e));
            },
        };
        cursor = cursor + delta;
        proof {
            crate::varint::lemma_encode_decode(buffer@, 10, u64::MAX as nat);
        }
        let thread = u8_from_slice(tail(buffer, cursor))?;
        cursor = cursor + 1;
        if thread >= context.parent_count {
            return Err(ModelsError::InvalidThreadNumber);
        }
        proof {
            law_slot_parse_reads_thread_byte(buffer@, context.parent_count);
        }
        Ok((Slot { period, thread }, cursor))
    }
}

} // verus!
