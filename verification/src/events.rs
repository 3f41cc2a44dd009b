//! Tagged events for the decoupled capture/delivery architecture: a capture
//! task turns each completed frame into a `FrameStart`, a run of bounded
//! `Data` payloads, and a `FrameEnd`, carried to the delivery task over a
//! bounded channel.
//!
//! The payload cutting follows the capture side's accumulation: the frame
//! is buffered without its closing marker, a full payload is flushed every
//! time the buffer reaches `DATA_CHUNK` bytes, and the closing two bytes
//! ride with the final remainder. So every payload but the last is exactly
//! `DATA_CHUNK` bytes, and the last is 2 to `DATA_CHUNK + 1` bytes ending
//! with the frame's closing marker.

use vstd::prelude::*;
use crate::assembler::CompletedFrame;

verus! {

/// Largest `Data` payload sent at once.
pub const DATA_CHUNK: usize = 2048;

/// One event of the capture stream.
pub enum CamEvent {
    FrameStart,
    Data(Vec<u8>),
    FrameEnd,
}

/// The full `sz`-byte runs flushed while `bytes` accumulates one by one:
/// one run per time the buffer fills.
pub open spec fn full_blocks(bytes: Seq<u8>, sz: nat) -> Seq<Seq<u8>>
    decreases bytes.len(),
    when sz >= 1
{
    if bytes.len() < sz {
        Seq::empty()
    } else {
        seq![bytes.take(sz as int)] + full_blocks(bytes.skip(sz as int), sz)
    }
}

/// What stays buffered after the full runs are flushed: fewer than `sz`
/// bytes.
pub open spec fn block_rem(bytes: Seq<u8>, sz: nat) -> Seq<u8>
    decreases bytes.len(),
    when sz >= 1
{
    if bytes.len() < sz {
        bytes
    } else {
        block_rem(bytes.skip(sz as int), sz)
    }
}

/// The `Data` payloads announcing one completed frame: the frame short of
/// its closing two bytes is flushed in full `sz`-byte runs, and the final
/// payload is the remainder with the closing bytes appended.
pub open spec fn frame_payloads(frame: Seq<u8>, sz: nat) -> Seq<Seq<u8>>
    recommends
        frame.len() >= 2,
        sz >= 1,
{
    let head = frame.take(frame.len() - 2);
    full_blocks(head, sz).push(block_rem(head, sz) + frame.skip(frame.len() - 2))
}

/// Every full run is exactly `sz` bytes, the remainder is shorter, and
/// together they restore the bytes.
pub proof fn lemma_blocks_shape(bytes: Seq<u8>, sz: nat)
    requires
        sz >= 1,
    ensures
        forall|k: int|
            0 <= k < full_blocks(bytes, sz).len() ==> (#[trigger] full_blocks(bytes, sz)[k]).len()
                == sz,
        block_rem(bytes, sz).len() < sz,
        full_blocks(bytes, sz).flatten() + block_rem(bytes, sz) == bytes,
    decreases bytes.len(),
{
    reveal_with_fuel(Seq::<_>::flatten, 2);
    if bytes.len() < sz {
        assert(full_blocks(bytes, sz).flatten() + block_rem(bytes, sz) =~= bytes);
    } else {
        lemma_blocks_shape(bytes.skip(sz as int), sz);
        let c = full_blocks(bytes, sz);
        let rest = full_blocks(bytes.skip(sz as int), sz);
        assert(c.first() == bytes.take(sz as int));
        assert(c.drop_first() =~= rest);
        assert(c.flatten() == c.first() + c.drop_first().flatten());
        assert forall|k: int| 0 <= k < c.len() implies (#[trigger] c[k]).len() == sz by {
            if k > 0 {
                assert(c[k] == rest[k - 1]);
            }
        }
        assert(c.flatten() + block_rem(bytes, sz) =~= bytes.take(sz as int) + (rest.flatten()
            + block_rem(bytes.skip(sz as int), sz)));
        assert(bytes.take(sz as int) + bytes.skip(sz as int) =~= bytes);
    }
}

/// The payload cutting of a completed frame: every payload but the last is
/// exactly `sz` bytes, the last is 2 to `sz + 1` bytes and ends with the
/// frame's closing two bytes, and the payloads concatenate back to the
/// frame.
pub proof fn lemma_frame_payloads_shape(frame: Seq<u8>, sz: nat)
    requires
        frame.len() >= 2,
        sz >= 1,
    ensures
        ({
            let ps = frame_payloads(frame, sz);
            &&& ps.len() >= 1
            &&& (forall|k: int| 0 <= k < ps.len() - 1 ==> (#[trigger] ps[k]).len() == sz)
            &&& 2 <= ps.last().len() <= sz + 1
            &&& ps.last().skip(ps.last().len() - 2) == frame.skip(frame.len() - 2)
            &&& ps.flatten() == frame
        }),
{
    let head = frame.take(frame.len() - 2);
    let tail = frame.skip(frame.len() - 2);
    let last = block_rem(head, sz) + tail;
    let ps = frame_payloads(frame, sz);
    lemma_blocks_shape(head, sz);
    assert(tail.len() == 2);
    assert(last.skip(last.len() - 2) =~= tail);
    full_blocks(head, sz).lemma_flatten_push(last);
    assert(ps.flatten() =~= full_blocks(head, sz).flatten() + last);
    assert((full_blocks(head, sz).flatten() + block_rem(head, sz)) + tail =~= full_blocks(
        head,
        sz,
    ).flatten() + last);
    assert(head + tail =~= frame);
    assert forall|k: int| 0 <= k < ps.len() - 1 implies (#[trigger] ps[k]).len() == sz by {
        assert(ps[k] == full_blocks(head, sz)[k]);
    }
}

/// The events announcing one completed frame — which always carries its
/// two closing marker bytes: `FrameStart`, the frame's bytes in order as
/// `Data` payloads cut as the capture task flushes them, then `FrameEnd`.
pub fn frame_events(frame: &CompletedFrame) -> (events: Vec<CamEvent>)
    requires
        frame.bytes@.len() >= 2,
    ensures
        ({
            let payloads = frame_payloads(frame.bytes@, DATA_CHUNK as nat);
            &&& events@.len() == payloads.len() + 2
            &&& events@[0] is FrameStart
            &&& events@[events@.len() - 1] is FrameEnd
            &&& (forall|k: int|
                0 <= k < payloads.len() ==> (#[trigger] events@[k + 1]) is Data && events@[k
                    + 1]->Data_0@ == payloads[k])
        }),
{
    let ghost sz = DATA_CHUNK as nat;
    let bytes = &frame.bytes;
    let n = bytes.len();
    let head_len = n - 2;
    let ghost head = bytes@.take(head_len as int);
    let mut events: Vec<CamEvent> = Vec::new();
    events.push(CamEvent::FrameStart);
    let ghost done: Seq<Seq<u8>> = Seq::empty();
    proof {
        assert(head.skip(0) =~= head);
    }
    let mut off: usize = 0;
    while head_len - off >= DATA_CHUNK
        invariant
            off <= head_len,
            head_len == n - 2,
            n == bytes@.len(),
            n >= 2,
            head == bytes@.take(head_len as int),
            full_blocks(head, sz) == done + full_blocks(head.skip(off as int), sz),
            block_rem(head, sz) == block_rem(head.skip(off as int), sz),
            events@.len() == done.len() + 1,
            events@[0] is FrameStart,
            forall|k: int|
                0 <= k < done.len() ==> (#[trigger] events@[k + 1]) is Data && events@[k
                    + 1]->Data_0@ == done[k],
            sz == DATA_CHUNK as nat,
        decreases head_len - off,
    {
        let end = off + DATA_CHUNK;
        let mut payload: Vec<u8> = Vec::new();
        payload.extend_from_slice(&bytes.as_slice()[off..end]);
        proof {
            let rem = head.skip(off as int);
            assert(rem.len() >= sz);
            assert(rem.take(sz as int) =~= bytes@.subrange(off as int, end as int));
            assert(payload@ == bytes@.subrange(off as int, end as int));
            assert(rem.skip(sz as int) =~= head.skip(end as int));
            assert(full_blocks(rem, sz) =~= seq![payload@] + full_blocks(head.skip(end as int), sz));
            assert(block_rem(rem, sz) == block_rem(head.skip(end as int), sz));
            assert(done + (seq![payload@] + full_blocks(head.skip(end as int), sz)) =~= (done
                + seq![payload@]) + full_blocks(head.skip(end as int), sz));
            done = done + seq![payload@];
        }
        events.push(CamEvent::Data(payload));
        off = end;
    }
    // the remainder, with the closing two bytes appended
    let mut payload: Vec<u8> = Vec::new();
    payload.extend_from_slice(&bytes.as_slice()[off..head_len]);
    payload.extend_from_slice(&bytes.as_slice()[head_len..n]);
    proof {
        let rem = head.skip(off as int);
        assert(rem.len() < sz);
        assert(full_blocks(rem, sz) == Seq::<Seq<u8>>::empty());
        assert(full_blocks(head, sz) =~= done);
        assert(block_rem(rem, sz) == rem);
        assert(rem =~= bytes@.subrange(off as int, head_len as int));
        assert(bytes@.skip(head_len as int) =~= bytes@.subrange(head_len as int, n as int));
        assert(payload@ == block_rem(head, sz) + bytes@.skip(head_len as int));
        done = done.push(payload@);
        assert(done =~= frame_payloads(bytes@, sz));
    }
    events.push(CamEvent::Data(payload));
    events.push(CamEvent::FrameEnd);
    events
}

} // verus!
