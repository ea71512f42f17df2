use vstd::prelude::*;
use crate::logger::{Logger, SIZE};

verus! {

/// Offset, within a module slice, of the payload length byte.
pub const LENGTH_AT: usize = 0;
/// Offset of the command payload.
pub const PAYLOAD_AT: usize = 1;
/// Room for the payload, in bytes.
pub const PAYLOAD_CAPACITY: usize = 128;
/// Offset of the flag byte.
pub const FLAG_AT: usize = 129;
/// Offset of the mirror of the log.
pub const MIRROR_AT: usize = 130;
/// Bytes a module slice needs.
pub const SLICE_SIZE: usize = MIRROR_AT + SIZE;
/// Flag bit: a command waits for the runtime.
pub const COMMAND_PENDING: u8 = 0x1;
/// Flag bit: a result waits for the host.
pub const RESULT_PENDING: u8 = 0x2;
/// Bit of a sync slice's first byte: the host let the script go on.
pub const SYNC_TOKEN: u8 = 0x1;

pub open spec fn has_bit(b: u8, bit: u8) -> bool {
    b & bit != 0
}

/// Whether the slice at `offset` holds a command for the runtime.
pub open spec fn command_pending(mem: Seq<u8>, offset: int) -> bool {
    has_bit(mem[offset + FLAG_AT], COMMAND_PENDING)
}

/// `mem` after the host left `payload` as a command in the slice at `offset`.
pub open spec fn enqueued(mem: Seq<u8>, offset: int, payload: Seq<u8>) -> Seq<u8> {
    Seq::new(
        mem.len(),
        |i: int|
            if i == offset + LENGTH_AT {
                payload.len() as u8
            } else if offset + PAYLOAD_AT <= i < offset + PAYLOAD_AT + payload.len() {
                payload[i - offset - PAYLOAD_AT]
            } else if i == offset + FLAG_AT {
                mem[i] | COMMAND_PENDING
            } else {
                mem[i]
            },
    )
}

/// The payload length that the slice at `offset` records, within the room there is.
pub open spec fn payload_len(mem: Seq<u8>, offset: int) -> int {
    if mem[offset + LENGTH_AT] as int > PAYLOAD_CAPACITY {
        PAYLOAD_CAPACITY as int
    } else {
        mem[offset + LENGTH_AT] as int
    }
}

/// The command that the slice at `offset` holds.
pub open spec fn payload_of(mem: Seq<u8>, offset: int) -> Seq<u8> {
    mem.subrange(offset + PAYLOAD_AT, offset + PAYLOAD_AT + payload_len(mem, offset))
}

/// `mem` after the runtime took the command of the slice at `offset`: length
/// and payload zeroed, the pending bit cleared.
pub open spec fn consumed(mem: Seq<u8>, offset: int) -> Seq<u8> {
    Seq::new(
        mem.len(),
        |i: int|
            if offset <= i < offset + FLAG_AT {
                0u8
            } else if i == offset + FLAG_AT {
                mem[i] & !COMMAND_PENDING
            } else {
                mem[i]
            },
    )
}

/// `mem` after the runtime published the log `content` to the slice at
/// `offset`, raising the result bit when `updated`.
pub open spec fn published(mem: Seq<u8>, offset: int, content: Seq<u8>, updated: bool) -> Seq<u8> {
    Seq::new(
        mem.len(),
        |i: int|
            if offset + MIRROR_AT <= i < offset + MIRROR_AT + content.len() {
                content[i - offset - MIRROR_AT]
            } else if offset + MIRROR_AT + content.len() <= i < offset + SLICE_SIZE {
                0u8
            } else if i == offset + FLAG_AT && updated {
                mem[i] | RESULT_PENDING
            } else {
                mem[i]
            },
    )
}

/// The host's side: leaves `payload` as a command in the slice at `offset`,
/// writing it before it raises the pending bit. A payload longer than the room
/// for it is refused and nothing is written.
pub fn enqueue_command(mem: &mut [u8], offset: usize, payload: &[u8]) -> (r: bool)
    requires
        offset + MIRROR_AT <= old(mem)@.len(),
    ensures
        r == (payload@.len() <= PAYLOAD_CAPACITY),
        r ==> final(mem)@ == enqueued(old(mem)@, offset as int, payload@),
        !r ==> final(mem)@ == old(mem)@,
{
    let total = mem.len();
    let n = payload.len();
    if n > PAYLOAD_CAPACITY {
        return false;
    }
    mem[offset + LENGTH_AT] = n as u8;
    let mut i: usize = 0;
    while i < n
        invariant
            i <= n <= PAYLOAD_CAPACITY,
            n == payload@.len(),
            total == mem@.len(),
            offset + MIRROR_AT <= mem@.len(),
            mem@.len() == old(mem)@.len(),
            forall|k: int| 0 <= k < mem@.len() ==> #[trigger] mem@[k] == (
                if k == offset + LENGTH_AT {
                    n as u8
                } else if offset + PAYLOAD_AT <= k < offset + PAYLOAD_AT + i {
                    payload@[k - offset - PAYLOAD_AT]
                } else {
                    old(mem)@[k]
                }),
        decreases n - i,
    {
        mem[offset + PAYLOAD_AT + i] = payload[i];
        i = i + 1;
    }
    let flag = mem[offset + FLAG_AT];
    mem[offset + FLAG_AT] = flag | COMMAND_PENDING;
    assert(mem@ =~= enqueued(old(mem)@, offset as int, payload@));
    true
}

/// The runtime's side, one poll: when the slice at `offset` holds a command,
/// takes it, zeroes length and payload and clears the pending bit; otherwise
/// changes nothing.
pub fn take_command(mem: &mut [u8], offset: usize) -> (r: Option<Vec<u8>>)
    requires
        offset + MIRROR_AT <= old(mem)@.len(),
    ensures
        r is Some <==> command_pending(old(mem)@, offset as int),
        r matches Some(v) ==> v@ == payload_of(old(mem)@, offset as int),
        r is Some ==> final(mem)@ == consumed(old(mem)@, offset as int),
        r is None ==> final(mem)@ == old(mem)@,
{
    let total = mem.len();
    let flag = mem[offset + FLAG_AT];
    if flag & COMMAND_PENDING == 0 {
        return None;
    }
    let mut len = mem[offset + LENGTH_AT] as usize;
    if len > PAYLOAD_CAPACITY {
        len = PAYLOAD_CAPACITY;
    }
    let mut out: Vec<u8> = Vec::new();
    let mut i: usize = 0;
    while i < len
        invariant
            i <= len <= PAYLOAD_CAPACITY,
            len == payload_len(old(mem)@, offset as int),
            total == mem@.len(),
            offset + MIRROR_AT <= mem@.len(),
            mem@ == old(mem)@,
            out@ == old(mem)@.subrange(offset + PAYLOAD_AT, offset + PAYLOAD_AT + i),
        decreases len - i,
    {
        out.push(mem[offset + PAYLOAD_AT + i]);
        i = i + 1;
        assert(out@ =~= old(mem)@.subrange(offset + PAYLOAD_AT, offset + PAYLOAD_AT + i));
    }
    let mut j: usize = 0;
    while j < FLAG_AT
        invariant
            j <= FLAG_AT,
            offset + MIRROR_AT <= mem@.len(),
            mem@.len() == old(mem)@.len(),
            forall|k: int| 0 <= k < mem@.len() ==> #[trigger] mem@[k] == (
                if offset <= k < offset + j {
                    0u8
                } else {
                    old(mem)@[k]
                }),
        decreases FLAG_AT - j,
    {
        mem[offset + j] = 0;
        j = j + 1;
    }
    mem[offset + FLAG_AT] = flag & !COMMAND_PENDING;
    assert(mem@ =~= consumed(old(mem)@, offset as int));
    Some(out)
}

/// The runtime's result path: writes the log's content into the mirror of the
/// slice at `offset`, zeroes the rest of the mirror and, when the log changed
/// since the last time, raises the result bit and marks the log as seen.
pub fn publish_result(mem: &mut [u8], offset: usize, log: &mut Logger)
    requires
        offset + SLICE_SIZE <= old(mem)@.len(),
        old(log).wf(),
    ensures
        final(mem)@ == published(old(mem)@, offset as int, old(log).content(), old(log).updated),
        final(log).buffer == old(log).buffer,
        final(log).index == old(log).index,
        !final(log).updated,
{
    let total = mem.len();
    let n = log.index;
    let base = offset + MIRROR_AT;
    let mut i: usize = 0;
    while i < SIZE
        invariant
            i <= SIZE,
            n <= SIZE,
            n == log.index,
            log.wf(),
            base == offset + MIRROR_AT,
            total == mem@.len(),
            offset + SLICE_SIZE <= mem@.len(),
            mem@.len() == old(mem)@.len(),
            forall|k: int| 0 <= k < mem@.len() ==> #[trigger] mem@[k] == (
                if base <= k < base + i {
                    if k - base < n {
                        log.buffer@[k - base]
                    } else {
                        0u8
                    }
                } else {
                    old(mem)@[k]
                }),
        decreases SIZE - i,
    {
        if i < n {
            mem[base + i] = log.buffer[i];
        } else {
            mem[base + i] = 0;
        }
        i = i + 1;
    }
    if log.updated {
        let flag = mem[offset + FLAG_AT];
        mem[offset + FLAG_AT] = flag | RESULT_PENDING;
        log.updated = false;
    }
    assert(mem@ =~= published(old(mem)@, offset as int, old(log).content(), old(log).updated));
}

/// One poll of a sync slice: takes the host's token when it is there.
pub fn take_sync_token(mem: &mut [u8], offset: usize) -> (r: bool)
    requires
        offset < old(mem)@.len(),
    ensures
        r == has_bit(old(mem)@[offset as int], SYNC_TOKEN),
        r ==> final(mem)@ == old(mem)@.update(offset as int, old(mem)@[offset as int] & !SYNC_TOKEN),
        !r ==> final(mem)@ == old(mem)@,
{
    let b = mem[offset];
    if b & SYNC_TOKEN == 0 {
        return false;
    }
    mem[offset] = b & !SYNC_TOKEN;
    true
}

/// A command that the host leaves in a slice is what the runtime takes from
/// it, and taking it leaves no command pending, with length and payload zeroed.
pub proof fn lemma_command_round_trip(mem: Seq<u8>, offset: int, payload: Seq<u8>)
    requires
        0 <= offset,
        offset + MIRROR_AT <= mem.len(),
        payload.len() <= PAYLOAD_CAPACITY,
    ensures
        command_pending(enqueued(mem, offset, payload), offset),
        payload_of(enqueued(mem, offset, payload), offset) == payload,
        !command_pending(consumed(enqueued(mem, offset, payload), offset), offset),
        forall|k: int|
            offset <= k < offset + FLAG_AT ==> #[trigger] consumed(enqueued(mem, offset, payload), offset)[k]
                == 0u8,
{
    let e = enqueued(mem, offset, payload);
    let f = mem[offset + FLAG_AT];
    assert((f | 1u8) & 1u8 != 0u8) by (bit_vector);
    assert(((f | 1u8) & !1u8) & 1u8 == 0u8) by (bit_vector);
    assert(e[offset + FLAG_AT] == f | COMMAND_PENDING);
    assert(payload_of(e, offset) =~= payload);
    assert(consumed(e, offset)[offset + FLAG_AT] == e[offset + FLAG_AT] & !COMMAND_PENDING);
}

} // verus!
