//! JPEG frame assembler: a state machine that scans the sensor's
//! non-frame-aligned byte stream for start-of-image (`FF D8`) and
//! end-of-image (`FF D9`) markers and collects each delimited image into a
//! fixed-capacity buffer.
//!
//! Marker detection is purely intra-chunk: a marker whose two bytes straddle
//! a chunk boundary is not recognized, matching the burst-oriented capture
//! path this assembler feeds from. Frames larger than the buffer capacity
//! are dropped whole and the scanner resynchronizes on the next start
//! marker; the session continues.

use vstd::prelude::*;

verus! {

/// Start-of-image marker pair at position `i`.
pub open spec fn soi_at(data: Seq<u8>, i: int) -> bool {
    data[i] == 0xFF && data[i + 1] == 0xD8
}

/// End-of-image marker pair at position `i`.
pub open spec fn eoi_at(data: Seq<u8>, i: int) -> bool {
    data[i] == 0xFF && data[i + 1] == 0xD9
}

/// Mathematical state of the scanner: whether a frame is open, the bytes
/// accumulated for it so far (the buffer's `[0, cursor)` prefix), and the
/// frames completed so far.
pub struct ScanModel {
    pub in_frame: bool,
    pub acc: Seq<u8>,
    pub frames: Seq<Seq<u8>>,
}

/// One full left-to-right scan of `data` starting at position `i`, with
/// buffer capacity `cap`. This is the defining model of the assembler:
///
/// - idle: a `FF D8` pair opens a frame whose first two bytes are the
///   marker; any other byte is skipped;
/// - in a frame: a `FF D9` pair completes the frame (emitted only if the
///   closing marker still fits in the buffer), any other byte is appended;
/// - an append or completion that would exceed `cap` drops the open frame
///   and resumes the idle scan at the current position.
///
/// The final byte of a chunk is never the first byte of a marker: marker
/// pairs are only recognized wholly inside one chunk.
pub open spec fn scan(s: ScanModel, cap: nat, data: Seq<u8>, i: nat) -> ScanModel
    decreases data.len() - i, (if s.in_frame { 1int } else { 0int }),
{
    if i >= data.len() {
        s
    } else if !s.in_frame {
        if i + 1 < data.len() && soi_at(data, i as int) {
            scan(
                ScanModel { in_frame: true, acc: seq![0xFFu8, 0xD8u8], frames: s.frames },
                cap,
                data,
                i + 2,
            )
        } else {
            scan(s, cap, data, i + 1)
        }
    } else {
        if i + 1 < data.len() && eoi_at(data, i as int) {
            if s.acc.len() + 2 <= cap {
                scan(
                    ScanModel {
                        in_frame: false,
                        acc: Seq::empty(),
                        frames: s.frames.push(s.acc + seq![0xFFu8, 0xD9u8]),
                    },
                    cap,
                    data,
                    i + 2,
                )
            } else {
                scan(ScanModel { in_frame: false, acc: Seq::empty(), frames: s.frames }, cap, data, i)
            }
        } else {
            if s.acc.len() + 1 <= cap {
                scan(
                    ScanModel { in_frame: true, acc: s.acc.push(data[i as int]), frames: s.frames },
                    cap,
                    data,
                    i + 1,
                )
            } else {
                scan(ScanModel { in_frame: false, acc: Seq::empty(), frames: s.frames }, cap, data, i)
            }
        }
    }
}

/// The scanner's starting point: idle, empty buffer, nothing emitted.
pub open spec fn idle_model() -> ScanModel {
    ScanModel { in_frame: false, acc: Seq::empty(), frames: Seq::empty() }
}

/// A completed JPEG image: the delimited bytes from `FF D8` through `FF D9`
/// inclusive, copied out of the assembly buffer on completion.
pub struct CompletedFrame {
    pub bytes: Vec<u8>,
}

/// The boundary-detection state machine together with its fixed-capacity
/// image buffer. The buffer's write cursor is `buf.len()`; it only grows
/// while a frame is open and resets to zero on completion, drop, or
/// resynchronization.
pub struct FrameAssembler {
    buf: Vec<u8>,
    capacity: usize,
    in_frame: bool,
    frame_count: u64,
}

impl FrameAssembler {
    /// The bytes accumulated for the currently open frame (empty when idle).
    pub closed spec fn buffered(self) -> Seq<u8> {
        self.buf@
    }

    pub closed spec fn capacity_spec(self) -> nat {
        self.capacity as nat
    }

    pub closed spec fn in_frame_spec(self) -> bool {
        self.in_frame
    }

    pub closed spec fn frame_count_spec(self) -> u64 {
        self.frame_count
    }

    /// The scanner state seen as a model, with no frames recorded yet.
    pub open spec fn model(self) -> ScanModel {
        ScanModel { in_frame: self.in_frame_spec(), acc: self.buffered(), frames: Seq::empty() }
    }

    /// The buffer's write cursor.
    pub open spec fn cursor(self) -> nat {
        self.buffered().len()
    }

    /// Well-formedness: the cursor stays within capacity and is zero
    /// whenever no frame is open. Capacity at least two so an opening
    /// marker always fits.
    pub open spec fn wf(self) -> bool {
        &&& self.capacity_spec() >= 2
        &&& self.buffered().len() <= self.capacity_spec()
        &&& (!self.in_frame_spec() ==> self.buffered().len() == 0)
    }

    /// A fresh assembler: idle, empty buffer, no frames yet.
    pub fn new(capacity: usize) -> (r: FrameAssembler)
        requires
            capacity >= 2,
        ensures
            r.wf(),
            !r.in_frame_spec(),
            r.buffered() == Seq::<u8>::empty(),
            r.capacity_spec() == capacity,
            r.frame_count_spec() == 0,
    {
        FrameAssembler { buf: Vec::new(), capacity, in_frame: false, frame_count: 0 }
    }

    /// How many frames have been completed since construction.
    pub fn frame_count(&self) -> (r: u64)
        ensures
            r == self.frame_count_spec(),
    {
        self.frame_count
    }

    /// The fixed buffer capacity.
    pub fn capacity(&self) -> (r: usize)
        ensures
            r as nat == self.capacity_spec(),
    {
        self.capacity
    }

    /// Whether a frame is currently mid-assembly (state persists across
    /// bursts: a frame may span several of them).
    pub fn is_in_frame(&self) -> (r: bool)
        ensures
            r == self.in_frame_spec(),
    {
        self.in_frame
    }

    /// Advances the state machine over one delivered chunk, returning the
    /// frames completed within it, in detection order. The final state,
    /// the emitted frames and the frame counter are exactly those of the
    /// `scan` model applied to the chunk.
    #[verifier::rlimit(40)]
    pub fn process_chunk(&mut self, data: &[u8]) -> (frames: Vec<CompletedFrame>)
        requires
            old(self).wf(),
            old(self).frame_count_spec() + data@.len() <= u64::MAX,
        ensures
            final(self).wf(),
            final(self).capacity_spec() == old(self).capacity_spec(),
            ({
                let end = scan(old(self).model(), old(self).capacity_spec(), data@, 0);
                &&& final(self).in_frame_spec() == end.in_frame
                &&& final(self).buffered() == end.acc
                &&& frames@.len() == end.frames.len()
                &&& (forall|k: int|
                    0 <= k < end.frames.len() ==> #[trigger] frames@[k].bytes@ == end.frames[k])
                &&& final(self).frame_count_spec() == old(self).frame_count_spec()
                    + end.frames.len()
            }),
    {
        let ghost target = scan(old(self).model(), old(self).capacity_spec(), data@, 0);
        let ghost cap = old(self).capacity_spec();
        let mut frames: Vec<CompletedFrame> = Vec::new();
        let ghost emitted: Seq<Seq<u8>> = Seq::empty();
        let len = data.len();
        let mut i: usize = 0;
        while i < len
            invariant
                i <= len,
                len == data@.len(),
                self.capacity == old(self).capacity,
                self.capacity >= 2,
                self.buf@.len() <= self.capacity,
                !self.in_frame ==> self.buf@.len() == 0,
                scan(
                    ScanModel { in_frame: self.in_frame, acc: self.buf@, frames: emitted },
                    cap,
                    data@,
                    i as nat,
                ) == target,
                cap == self.capacity as nat,
                frames@.len() == emitted.len(),
                forall|k: int| 0 <= k < emitted.len() ==> #[trigger] frames@[k].bytes@ == emitted[k],
                emitted.len() <= i,
                self.frame_count == old(self).frame_count + emitted.len(),
                old(self).frame_count + data@.len() <= u64::MAX,
            decreases len - i, (if self.in_frame { 1int } else { 0int }),
        {
            let ghost pre = ScanModel { in_frame: self.in_frame, acc: self.buf@, frames: emitted };
            let ghost i0 = i as nat;
            if !self.in_frame {
                if i + 1 < len && data[i] == 0xFF && data[i + 1] == 0xD8 {
                    self.in_frame = true;
                    self.buf.clear();
                    self.buf.push(0xFF);
                    self.buf.push(0xD8);
                    i = i + 2;
                    proof {
                        assert(self.buf@ =~= seq![0xFFu8, 0xD8u8]);
                        assert(scan(pre, cap, data@, i0) == scan(
                            ScanModel { in_frame: true, acc: self.buf@, frames: emitted },
                            cap,
                            data@,
                            i as nat,
                        ));
                    }
                } else {
                    i = i + 1;
                    proof {
                        assert(scan(pre, cap, data@, i0) == scan(pre, cap, data@, i as nat));
                    }
                }
            } else {
                if i + 1 < len && data[i] == 0xFF && data[i + 1] == 0xD9 {
                    if self.buf.len() <= self.capacity - 2 {
                        self.buf.push(0xFF);
                        self.buf.push(0xD9);
                        let mut bytes: Vec<u8> = Vec::new();
                        core::mem::swap(&mut bytes, &mut self.buf);
                        let ghost bseq = bytes@;
                        let ghost emitted_pre = emitted;
                        let ghost frames_pre = frames@;
                        proof {
                            assert(bseq =~= pre.acc + seq![0xFFu8, 0xD9u8]);
                            emitted = emitted.push(bseq);
                        }
                        frames.push(CompletedFrame { bytes });
                        proof {
                            assert(frames@.len() == emitted.len());
                            assert(frames@ == frames_pre.push(frames@[frames@.len() - 1]));
                            assert(frames@[frames@.len() - 1].bytes@ == bseq);
                            assert forall|k: int|
                                0 <= k < emitted.len() implies #[trigger] frames@[k].bytes@
                                == emitted[k] by {
                                if k < emitted.len() - 1 {
                                    assert(frames@[k] == frames_pre[k]);
                                    assert(emitted[k] == emitted_pre[k]);
                                    assert(frames_pre[k].bytes@ == emitted_pre[k]);
                                }
                            }
                        }
                        self.in_frame = false;
                        self.frame_count = self.frame_count + 1;
                        i = i + 2;
                        proof {
                            assert(self.buf@ =~= Seq::<u8>::empty());
                            assert(scan(pre, cap, data@, i0) == scan(
                                ScanModel { in_frame: false, acc: self.buf@, frames: emitted },
                                cap,
                                data@,
                                i as nat,
                            ));
                        }
                    } else {
                        self.in_frame = false;
                        self.buf.clear();
                        proof {
                            assert(self.buf@ =~= Seq::<u8>::empty());
                            assert(scan(pre, cap, data@, i0) == scan(
                                ScanModel { in_frame: false, acc: self.buf@, frames: emitted },
                                cap,
                                data@,
                                i as nat,
                            ));
                        }
                    }
                } else {
                    if self.buf.len() < self.capacity {
                        let b = data[i];
                        self.buf.push(b);
                        i = i + 1;
                        proof {
                            assert(self.buf@ =~= pre.acc.push(data@[i0 as int]));
                            assert(scan(pre, cap, data@, i0) == scan(
                                ScanModel { in_frame: true, acc: self.buf@, frames: emitted },
                                cap,
                                data@,
                                i as nat,
                            ));
                        }
                    } else {
                        self.in_frame = false;
                        self.buf.clear();
                        proof {
                            assert(self.buf@ =~= Seq::<u8>::empty());
                            assert(scan(pre, cap, data@, i0) == scan(
                                ScanModel { in_frame: false, acc: self.buf@, frames: emitted },
                                cap,
                                data@,
                                i as nat,
                            ));
                        }
                    }
                }
            }
        }
        frames
    }
}

} // verus!
