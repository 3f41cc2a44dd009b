//! The assembler's proved properties: what a scan from idle emits for
//! well-formed frame streams, how oversized frames are dropped and the
//! scanner resynchronizes, that garbage produces nothing, and that a frame
//! split over several bursts is still assembled whole.

use vstd::prelude::*;
use crate::assembler::eoi_at;
use crate::assembler::idle_model;
use crate::assembler::scan;
use crate::assembler::soi_at;
use crate::assembler::ScanModel;

verus! {

/// No start marker pair begins anywhere in `g`.
pub open spec fn no_soi(g: Seq<u8>) -> bool {
    forall|j: int| 0 <= j && j + 1 < g.len() ==> !soi_at(g, j)
}

/// No end marker pair begins anywhere in `s`.
pub open spec fn no_eoi(s: Seq<u8>) -> bool {
    forall|j: int| 0 <= j && j + 1 < s.len() ==> !eoi_at(s, j)
}

/// A well-formed delimited image: opens with `FF D8`, closes with `FF D9`,
/// and no marker pair begins anywhere strictly inside (JPEG entropy coding
/// escapes `FF` bytes, so real frames have this shape).
pub open spec fn is_wf_frame(f: Seq<u8>) -> bool {
    &&& f.len() >= 4
    &&& soi_at(f, 0)
    &&& eoi_at(f, f.len() - 2)
    &&& (forall|j: int| 2 <= j < f.len() - 2 ==> !soi_at(f, j) && !eoi_at(f, j))
}

/// `f` occupies `data[i .. i + f.len())`.
pub open spec fn frame_at(data: Seq<u8>, i: nat, f: Seq<u8>) -> bool {
    &&& i + f.len() <= data.len()
    &&& data.subrange(i as int, (i + f.len()) as int) == f
}

/// An idle scan over a region without start markers does nothing.
pub proof fn lemma_skip_garbage(s: ScanModel, cap: nat, data: Seq<u8>, i: nat, m: nat)
    requires
        !s.in_frame,
        i <= m <= data.len(),
        forall|j: int| i <= j < m && j + 1 < data.len() ==> !soi_at(data, j),
    ensures
        scan(s, cap, data, i) == scan(s, cap, data, m),
    decreases m - i,
{
    if i < m {
        lemma_skip_garbage(s, cap, data, i + 1, m);
    }
}

/// An in-frame scan over a region without end markers appends the region
/// verbatim, as long as it fits.
pub proof fn lemma_accumulate(s: ScanModel, cap: nat, data: Seq<u8>, i: nat, m: nat)
    requires
        s.in_frame,
        i <= m <= data.len(),
        s.acc.len() + (m - i) <= cap,
        forall|j: int| i <= j < m && j + 1 < data.len() ==> !eoi_at(data, j),
    ensures
        scan(s, cap, data, i) == scan(
            ScanModel {
                in_frame: true,
                acc: s.acc + data.subrange(i as int, m as int),
                frames: s.frames,
            },
            cap,
            data,
            m,
        ),
    decreases m - i,
{
    if i == m {
        assert(s.acc + data.subrange(i as int, m as int) =~= s.acc);
    } else {
        let s2 = ScanModel {
            in_frame: true,
            acc: s.acc.push(data[i as int]),
            frames: s.frames,
        };
        lemma_accumulate(s2, cap, data, i + 1, m);
        assert(s.acc.push(data[i as int]) + data.subrange((i + 1) as int, m as int) =~= s.acc
            + data.subrange(i as int, m as int));
    }
}

/// From idle, a well-formed frame within capacity is consumed whole and
/// emitted exactly.
pub proof fn lemma_scan_frame(s: ScanModel, cap: nat, data: Seq<u8>, i: nat, f: Seq<u8>)
    requires
        !s.in_frame,
        is_wf_frame(f),
        f.len() <= cap,
        frame_at(data, i, f),
    ensures
        scan(s, cap, data, i) == scan(
            ScanModel { in_frame: false, acc: Seq::empty(), frames: s.frames.push(f) },
            cap,
            data,
            (i + f.len()) as nat,
        ),
{
    let flen = f.len();
    assert forall|j: int| i <= j < i + flen implies data[j] == f[j - i] by {
        assert(data.subrange(i as int, (i + f.len()) as int)[j - i] == f[j - i]);
    }
    // opening marker
    assert(soi_at(data, i as int));
    let s1 = ScanModel { in_frame: true, acc: seq![0xFFu8, 0xD8u8], frames: s.frames };
    assert(scan(s, cap, data, i) == scan(s1, cap, data, i + 2));
    // interior bytes carry no marker pairs
    assert forall|j: int| i + 2 <= j < i + flen - 2 && j + 1 < data.len() implies !eoi_at(
        data,
        j,
    ) by {
        assert(!eoi_at(f, j - i));
        assert(data[j] == f[j - i] && data[j + 1] == f[j - i + 1]);
    }
    lemma_accumulate(s1, cap, data, (i + 2) as nat, (i + flen - 2) as nat);
    let s2 = ScanModel {
        in_frame: true,
        acc: s1.acc + data.subrange((i + 2) as int, (i + flen - 2) as int),
        frames: s.frames,
    };
    // closing marker, which still fits
    assert(eoi_at(data, i + flen - 2));
    assert(s2.acc.len() + 2 <= cap);
    assert(s2.acc + seq![0xFFu8, 0xD9u8] =~= f);
    assert(scan(s2, cap, data, (i + flen - 2) as nat) == scan(
        ScanModel { in_frame: false, acc: Seq::empty(), frames: s.frames.push(f) },
        cap,
        data,
        (i + flen) as nat,
    ));
}

/// From idle, a well-formed frame too large for the buffer is consumed
/// whole, dropped, and nothing is emitted: the scanner leaves it idle again.
#[verifier::rlimit(40)]
pub proof fn lemma_scan_oversized_frame(s: ScanModel, cap: nat, data: Seq<u8>, i: nat, f: Seq<u8>)
    requires
        !s.in_frame,
        is_wf_frame(f),
        f.len() > cap,
        cap >= 2,
        frame_at(data, i, f),
    ensures
        scan(s, cap, data, i) == scan(
            ScanModel { in_frame: false, acc: Seq::empty(), frames: s.frames },
            cap,
            data,
            (i + f.len()) as nat,
        ),
{
    let flen = f.len();
    assert forall|j: int| i <= j < i + flen implies data[j] == f[j - i] by {
        assert(data.subrange(i as int, (i + f.len()) as int)[j - i] == f[j - i]);
    }
    assert(soi_at(data, i as int));
    let s1 = ScanModel { in_frame: true, acc: seq![0xFFu8, 0xD8u8], frames: s.frames };
    assert(scan(s, cap, data, i) == scan(s1, cap, data, i + 2));
    assert forall|j: int| i + 2 <= j < i + flen - 2 && j + 1 < data.len() implies !eoi_at(
        data,
        j,
    ) by {
        assert(!eoi_at(f, j - i));
        assert(data[j] == f[j - i] && data[j + 1] == f[j - i + 1]);
    }
    let reset = ScanModel { in_frame: false, acc: Seq::empty(), frames: s.frames };
    if cap < flen - 2 {
        // the byte at relative position cap no longer fits: drop there
        lemma_accumulate(s1, cap, data, (i + 2) as nat, (i + cap) as nat);
        let s2 = ScanModel {
            in_frame: true,
            acc: s1.acc + data.subrange((i + 2) as int, (i + cap) as int),
            frames: s.frames,
        };
        assert(s2.acc.len() == cap);
        assert(!eoi_at(data, (i + cap) as int));
        assert(scan(s2, cap, data, (i + cap) as nat) == scan(reset, cap, data, (i + cap) as nat));
        assert forall|j: int| i + cap <= j < i + flen && j + 1 < data.len() implies !soi_at(
            data,
            j,
        ) by {
            if j < i + flen - 2 {
                assert(!soi_at(f, j - i));
                assert(data[j] == f[j - i] && data[j + 1] == f[j - i + 1]);
            } else if j == i + flen - 2 {
                assert(data[j + 1] == f[flen - 1] && f[flen - 1] == 0xD9);
            } else {
                assert(data[j] == f[flen - 1] && f[flen - 1] == 0xD9);
            }
        }
        lemma_skip_garbage(reset, cap, data, (i + cap) as nat, (i + flen) as nat);
    } else {
        // the interior fits, but the closing marker does not: drop at completion
        lemma_accumulate(s1, cap, data, (i + 2) as nat, (i + flen - 2) as nat);
        let s2 = ScanModel {
            in_frame: true,
            acc: s1.acc + data.subrange((i + 2) as int, (i + flen - 2) as int),
            frames: s.frames,
        };
        assert(s2.acc.len() == flen - 2);
        assert(eoi_at(data, i + flen - 2));
        assert(scan(s2, cap, data, (i + flen - 2) as nat) == scan(
            reset,
            cap,
            data,
            (i + flen - 2) as nat,
        ));
        assert forall|j: int| i + flen - 2 <= j < i + flen && j + 1 < data.len() implies !soi_at(
            data,
            j,
        ) by {
            if j == i + flen - 2 {
                assert(data[j + 1] == f[flen - 1] && f[flen - 1] == 0xD9);
            } else {
                assert(data[j] == f[flen - 1] && f[flen - 1] == 0xD9);
            }
        }
        lemma_skip_garbage(reset, cap, data, (i + flen - 2) as nat, (i + flen) as nat);
    }
}

/// The byte stream `g_0 + f_0 + g_1 + f_1 + ... + tail`: frames interleaved
/// with inter-frame garbage, then a trailing remainder.
pub open spec fn stream_of(parts: Seq<(Seq<u8>, Seq<u8>)>, tail: Seq<u8>) -> Seq<u8>
    decreases parts.len(),
{
    if parts.len() == 0 {
        tail
    } else {
        parts[0].0 + parts[0].1 + stream_of(parts.drop_first(), tail)
    }
}

/// Every part pairs marker-free garbage with a well-formed frame that fits
/// the buffer.
pub open spec fn wf_parts(parts: Seq<(Seq<u8>, Seq<u8>)>, cap: nat) -> bool {
    forall|k: int|
        0 <= k < parts.len() ==> no_soi(#[trigger] parts[k].0) && is_wf_frame(parts[k].1)
            && parts[k].1.len() <= cap
}

/// The frames of a garbage/frame interleaving, in order.
pub open spec fn frames_of(parts: Seq<(Seq<u8>, Seq<u8>)>) -> Seq<Seq<u8>> {
    parts.map_values(|p: (Seq<u8>, Seq<u8>)| p.1)
}

/// An idle scan over a garbage/frame interleaving emits exactly the frames,
/// in order, and ends idle with an empty buffer.
#[verifier::rlimit(40)]
pub proof fn lemma_scan_stream(
    s: ScanModel,
    cap: nat,
    data: Seq<u8>,
    i: nat,
    parts: Seq<(Seq<u8>, Seq<u8>)>,
    tail: Seq<u8>,
)
    requires
        !s.in_frame,
        s.acc == Seq::<u8>::empty(),
        wf_parts(parts, cap),
        no_soi(tail),
        i <= data.len(),
        data.subrange(i as int, data.len() as int) == stream_of(parts, tail),
    ensures
        scan(s, cap, data, i) == (ScanModel {
            in_frame: false,
            acc: Seq::empty(),
            frames: s.frames + frames_of(parts),
        }),
    decreases parts.len(),
{
    let len = data.len() as int;
    if parts.len() == 0 {
        assert forall|j: int| i <= j < len && j + 1 < len implies !soi_at(data, j) by {
            assert(data[j] == data.subrange(i as int, len)[j - i]);
            assert(data[j + 1] == data.subrange(i as int, len)[j - i + 1]);
            assert(!soi_at(tail, j - i));
        }
        lemma_skip_garbage(s, cap, data, i, data.len());
        assert(s.frames + frames_of(parts) =~= s.frames);
        assert(scan(s, cap, data, i) == ScanModel {
            in_frame: false,
            acc: Seq::empty(),
            frames: s.frames + frames_of(parts),
        });
    } else {
        let g = parts[0].0;
        let f = parts[0].1;
        let rest = stream_of(parts.drop_first(), tail);
        let glen = g.len() as int;
        let flen = f.len() as int;
        assert(no_soi(g) && is_wf_frame(f) && f.len() <= cap);
        assert(stream_of(parts, tail) == g + f + rest);
        assert(data.subrange(i as int, len).len() == len - i);
        assert(len - i == glen + flen + rest.len());
        assert forall|j: int| i <= j < len implies data[j] == (g + f + rest)[j - i] by {
            assert(data[j] == data.subrange(i as int, len)[j - i]);
        }
        // the garbage run holds no start marker, nor does its border with
        // the frame, whose first byte is FF
        assert forall|j: int| i <= j < i + glen && j + 1 < len implies !soi_at(data, j) by {
            if j - i + 1 < glen {
                assert(data[j] == g[j - i] && data[j + 1] == g[j - i + 1]);
                assert(!soi_at(g, j - i));
            } else {
                assert(data[j + 1] == f[0] && f[0] == 0xFF);
            }
        }
        lemma_skip_garbage(s, cap, data, i, (i + glen) as nat);
        // the frame itself
        assert(data.subrange(i + glen, i + glen + flen) =~= f);
        lemma_scan_frame(s, cap, data, (i + glen) as nat, f);
        let s2 = ScanModel { in_frame: false, acc: Seq::empty(), frames: s.frames.push(f) };
        // the remainder decomposes the same way
        assert(data.subrange(i + glen + flen, len) =~= rest);
        lemma_scan_stream(s2, cap, data, (i + glen + flen) as nat, parts.drop_first(), tail);
        assert(s.frames.push(f) + frames_of(parts.drop_first()) =~= s.frames + frames_of(parts));
    }
}

/// Law: over any chunk formed of well-formed `FF D8 .. FF D9` frames within
/// buffer capacity, separated and followed by bytes free of start markers,
/// the scan from idle completes exactly one frame per marker pair, each
/// holding exactly the bytes from its opening through its closing marker,
/// and ends idle.
pub proof fn law_frames_extracted(parts: Seq<(Seq<u8>, Seq<u8>)>, tail: Seq<u8>, cap: nat)
    requires
        wf_parts(parts, cap),
        no_soi(tail),
    ensures
        scan(idle_model(), cap, stream_of(parts, tail), 0) == (ScanModel {
            in_frame: false,
            acc: Seq::empty(),
            frames: frames_of(parts),
        }),
{
    let data = stream_of(parts, tail);
    assert(data.subrange(0, data.len() as int) =~= data);
    lemma_scan_stream(idle_model(), cap, data, 0, parts, tail);
    assert(Seq::<Seq<u8>>::empty() + frames_of(parts) =~= frames_of(parts));
}

/// Law: a frame larger than the buffer is dropped whole — nothing is
/// emitted for it — and the scanner resynchronizes: every following
/// well-formed frame within capacity is still completed.
#[verifier::rlimit(40)]
pub proof fn law_resync_after_oversize(
    g0: Seq<u8>,
    fbig: Seq<u8>,
    parts: Seq<(Seq<u8>, Seq<u8>)>,
    tail: Seq<u8>,
    cap: nat,
)
    requires
        no_soi(g0),
        is_wf_frame(fbig),
        fbig.len() > cap,
        cap >= 2,
        wf_parts(parts, cap),
        no_soi(tail),
    ensures
        scan(idle_model(), cap, g0 + fbig + stream_of(parts, tail), 0) == (ScanModel {
            in_frame: false,
            acc: Seq::empty(),
            frames: frames_of(parts),
        }),
{
    let rest = stream_of(parts, tail);
    let data = g0 + fbig + rest;
    let glen = g0.len() as int;
    let fblen = fbig.len() as int;
    let len = data.len() as int;
    assert forall|j: int| 0 <= j < glen && j + 1 < len implies !soi_at(data, j) by {
        if j + 1 < glen {
            assert(data[j] == g0[j] && data[j + 1] == g0[j + 1]);
            assert(!soi_at(g0, j));
        } else {
            assert(data[j + 1] == fbig[0] && fbig[0] == 0xFF);
        }
    }
    lemma_skip_garbage(idle_model(), cap, data, 0, g0.len());
    assert(data.subrange(glen, glen + fblen) =~= fbig);
    lemma_scan_oversized_frame(idle_model(), cap, data, g0.len(), fbig);
    let s2 = ScanModel { in_frame: false, acc: Seq::empty(), frames: Seq::empty() };
    assert(data.subrange(glen + fblen, len) =~= rest);
    lemma_scan_stream(s2, cap, data, (g0.len() + fbig.len()) as nat, parts, tail);
    assert(Seq::<Seq<u8>>::empty() + frames_of(parts) =~= frames_of(parts));
}

/// The frames a scan carries in are only prepended to: what is emitted
/// depends on position and buffer alone, never on what was emitted before.
pub proof fn lemma_scan_frames_accumulate(s: ScanModel, cap: nat, data: Seq<u8>, i: nat)
    ensures
        ({
            let base = scan(
                ScanModel { in_frame: s.in_frame, acc: s.acc, frames: Seq::empty() },
                cap,
                data,
                i,
            );
            scan(s, cap, data, i) == (ScanModel {
                in_frame: base.in_frame,
                acc: base.acc,
                frames: s.frames + base.frames,
            })
        }),
    decreases data.len() - i, (if s.in_frame { 1int } else { 0int }),
{
    let s0 = ScanModel { in_frame: s.in_frame, acc: s.acc, frames: Seq::empty() };
    let base = scan(s0, cap, data, i);
    if i >= data.len() {
        assert(s.frames + base.frames =~= s.frames);
    } else if !s.in_frame {
        if i + 1 < data.len() && soi_at(data, i as int) {
            let acc2 = seq![0xFFu8, 0xD8u8];
            lemma_scan_frames_accumulate(
                ScanModel { in_frame: true, acc: acc2, frames: s.frames },
                cap,
                data,
                i + 2,
            );
            let inner = scan(
                ScanModel { in_frame: true, acc: acc2, frames: Seq::empty() },
                cap,
                data,
                i + 2,
            );
            lemma_scan_frames_accumulate(
                ScanModel { in_frame: true, acc: acc2, frames: Seq::empty() },
                cap,
                data,
                i + 2,
            );
            assert(Seq::<Seq<u8>>::empty() + inner.frames =~= inner.frames);
        } else {
            lemma_scan_frames_accumulate(s, cap, data, i + 1);
            let _ = scan(s0, cap, data, i + 1);
        }
    } else {
        if i + 1 < data.len() && eoi_at(data, i as int) {
            if s.acc.len() + 2 <= cap {
                let f = s.acc + seq![0xFFu8, 0xD9u8];
                lemma_scan_frames_accumulate(
                    ScanModel { in_frame: false, acc: Seq::empty(), frames: s.frames.push(f) },
                    cap,
                    data,
                    i + 2,
                );
                let inner = scan(
                    ScanModel { in_frame: false, acc: Seq::empty(), frames: Seq::empty() },
                    cap,
                    data,
                    i + 2,
                );
                lemma_scan_frames_accumulate(
                    ScanModel {
                        in_frame: false,
                        acc: Seq::empty(),
                        frames: Seq::<Seq<u8>>::empty().push(f),
                    },
                    cap,
                    data,
                    i + 2,
                );
                assert(s.frames.push(f) + inner.frames =~= s.frames + (Seq::<
                    Seq<u8>,
                >::empty().push(f) + inner.frames));
            } else {
                lemma_scan_frames_accumulate(
                    ScanModel { in_frame: false, acc: Seq::empty(), frames: s.frames },
                    cap,
                    data,
                    i,
                );
                let inner = scan(
                    ScanModel { in_frame: false, acc: Seq::empty(), frames: Seq::empty() },
                    cap,
                    data,
                    i,
                );
                lemma_scan_frames_accumulate(
                    ScanModel { in_frame: false, acc: Seq::empty(), frames: Seq::empty() },
                    cap,
                    data,
                    i,
                );
                assert(Seq::<Seq<u8>>::empty() + inner.frames =~= inner.frames);
            }
        } else {
            if s.acc.len() + 1 <= cap {
                lemma_scan_frames_accumulate(
                    ScanModel { in_frame: true, acc: s.acc.push(data[i as int]), frames: s.frames },
                    cap,
                    data,
                    i + 1,
                );
            } else {
                lemma_scan_frames_accumulate(
                    ScanModel { in_frame: false, acc: Seq::empty(), frames: s.frames },
                    cap,
                    data,
                    i,
                );
                let inner = scan(
                    ScanModel { in_frame: false, acc: Seq::empty(), frames: Seq::empty() },
                    cap,
                    data,
                    i,
                );
                lemma_scan_frames_accumulate(
                    ScanModel { in_frame: false, acc: Seq::empty(), frames: Seq::empty() },
                    cap,
                    data,
                    i,
                );
                assert(Seq::<Seq<u8>>::empty() + inner.frames =~= inner.frames);
            }
        }
    }
}

/// The scan folded over a sequence of delivered chunks, state threading
/// through: one step per burst delivery.
pub open spec fn scan_chunks(s: ScanModel, cap: nat, chunks: Seq<Seq<u8>>) -> ScanModel
    decreases chunks.len(),
{
    if chunks.len() == 0 {
        s
    } else {
        scan_chunks(scan(s, cap, chunks[0], 0), cap, chunks.drop_first())
    }
}

/// Every chunk is itself a whole garbage/frame interleaving (no frame
/// spans a chunk boundary), and `framess` lists each chunk's frames.
pub open spec fn wf_chunk_streams(
    chunks: Seq<Seq<u8>>,
    framess: Seq<Seq<Seq<u8>>>,
    cap: nat,
) -> bool {
    &&& chunks.len() == framess.len()
    &&& (forall|c: int|
        0 <= c < chunks.len() ==> exists|parts: Seq<(Seq<u8>, Seq<u8>)>, tail: Seq<u8>|
            {
                &&& wf_parts(parts, cap)
                &&& no_soi(tail)
                &&& #[trigger] chunks[c] == stream_of(parts, tail)
                &&& framess[c] == frames_of(parts)
            })
}

/// Law: feeding any sequence of chunks, each a well-formed interleaving of
/// frames within capacity and marker-free garbage, emits exactly each
/// chunk's frames, chunk after chunk in order, and ends idle.
pub proof fn law_frames_extracted_across_chunks(
    chunks: Seq<Seq<u8>>,
    framess: Seq<Seq<Seq<u8>>>,
    cap: nat,
)
    requires
        wf_chunk_streams(chunks, framess, cap),
    ensures
        scan_chunks(idle_model(), cap, chunks) == (ScanModel {
            in_frame: false,
            acc: Seq::empty(),
            frames: framess.flatten(),
        }),
    decreases chunks.len(),
{
    reveal_with_fuel(Seq::<_>::flatten, 2);
    if chunks.len() == 0 {
        assert(framess.flatten() =~= Seq::<Seq<u8>>::empty());
    } else {
        let (parts, tail) = choose|parts: Seq<(Seq<u8>, Seq<u8>)>, tail: Seq<u8>|
            {
                &&& wf_parts(parts, cap)
                &&& no_soi(tail)
                &&& #[trigger] chunks[0] == stream_of(parts, tail)
                &&& framess[0] == frames_of(parts)
            };
        law_frames_extracted(parts, tail, cap);
        let after = ScanModel { in_frame: false, acc: Seq::empty(), frames: framess[0] };
        assert(scan(idle_model(), cap, chunks[0], 0) == after);
        assert forall|c: int| 0 <= c < chunks.drop_first().len() implies exists|
            parts2: Seq<(Seq<u8>, Seq<u8>)>,
            tail2: Seq<u8>,
        |
            {
                &&& wf_parts(parts2, cap)
                &&& no_soi(tail2)
                &&& #[trigger] chunks.drop_first()[c] == stream_of(parts2, tail2)
                &&& framess.drop_first()[c] == frames_of(parts2)
            } by {
            assert(chunks[c + 1] == chunks.drop_first()[c]);
            assert(framess[c + 1] == framess.drop_first()[c]);
            let (p3, t3) = choose|p3: Seq<(Seq<u8>, Seq<u8>)>, t3: Seq<u8>|
                {
                    &&& wf_parts(p3, cap)
                    &&& no_soi(t3)
                    &&& #[trigger] chunks[c + 1] == stream_of(p3, t3)
                    &&& framess[c + 1] == frames_of(p3)
                };
            assert(chunks.drop_first()[c] == stream_of(p3, t3) && framess.drop_first()[c]
                == frames_of(p3));
        }
        law_frames_extracted_across_chunks(chunks.drop_first(), framess.drop_first(), cap);
        let rest = scan_chunks(idle_model(), cap, chunks.drop_first());
        lemma_scan_chunks_frames_accumulate(after, cap, chunks.drop_first());
        assert(framess[0] + framess.drop_first().flatten() =~= framess.flatten());
    }
}

/// `lemma_scan_frames_accumulate`, lifted to the chunk fold.
pub proof fn lemma_scan_chunks_frames_accumulate(s: ScanModel, cap: nat, chunks: Seq<Seq<u8>>)
    ensures
        ({
            let base = scan_chunks(
                ScanModel { in_frame: s.in_frame, acc: s.acc, frames: Seq::empty() },
                cap,
                chunks,
            );
            scan_chunks(s, cap, chunks) == (ScanModel {
                in_frame: base.in_frame,
                acc: base.acc,
                frames: s.frames + base.frames,
            })
        }),
    decreases chunks.len(),
{
    let s0 = ScanModel { in_frame: s.in_frame, acc: s.acc, frames: Seq::empty() };
    if chunks.len() == 0 {
        assert(s.frames + s0.frames =~= s.frames);
    } else {
        lemma_scan_frames_accumulate(s, cap, chunks[0], 0);
        let step0 = scan(s0, cap, chunks[0], 0);
        lemma_scan_chunks_frames_accumulate(
            ScanModel { in_frame: step0.in_frame, acc: step0.acc, frames: s.frames + step0.frames },
            cap,
            chunks.drop_first(),
        );
        lemma_scan_chunks_frames_accumulate(step0, cap, chunks.drop_first());
        let inner = scan_chunks(
            ScanModel { in_frame: step0.in_frame, acc: step0.acc, frames: Seq::empty() },
            cap,
            chunks.drop_first(),
        );
        assert((s.frames + step0.frames) + inner.frames =~= s.frames + (step0.frames
            + inner.frames));
    }
}

/// Law: bytes holding no start marker pair never produce a frame and never
/// open one — the scanner stays idle with the cursor at zero.
pub proof fn law_garbage_keeps_idle(g: Seq<u8>, cap: nat)
    requires
        no_soi(g),
    ensures
        scan(idle_model(), cap, g, 0) == idle_model(),
{
    lemma_skip_garbage(idle_model(), cap, g, 0, g.len());
}

/// Law: parser state persists across bursts — a frame whose data is split
/// over two chunks (the cut not inside a marker pair) is still assembled
/// whole. The first chunk opens the frame and buffers its early bytes; the
/// second finishes it, emits it exactly, and leaves the scanner idle.
#[verifier::rlimit(40)]
pub proof fn law_frame_spans_bursts(
    g: Seq<u8>,
    mid1: Seq<u8>,
    mid2: Seq<u8>,
    tail: Seq<u8>,
    cap: nat,
)
    requires
        no_soi(g),
        no_eoi(mid1),
        no_eoi(mid2),
        no_soi(tail),
        4 + mid1.len() + mid2.len() <= cap,
    ensures
        ({
            let open = scan(idle_model(), cap, g + seq![0xFFu8, 0xD8u8] + mid1, 0);
            &&& open == (ScanModel {
                in_frame: true,
                acc: seq![0xFFu8, 0xD8u8] + mid1,
                frames: Seq::empty(),
            })
            &&& scan(open, cap, mid2 + seq![0xFFu8, 0xD9u8] + tail, 0) == (ScanModel {
                in_frame: false,
                acc: Seq::empty(),
                frames: seq![seq![0xFFu8, 0xD8u8] + mid1 + mid2 + seq![0xFFu8, 0xD9u8]],
            })
        }),
{
    let soi = seq![0xFFu8, 0xD8u8];
    let eoi = seq![0xFFu8, 0xD9u8];
    let c1 = g + soi + mid1;
    let glen = g.len() as int;
    let len1 = c1.len() as int;
    // first chunk: skip the garbage; its border pair sees the marker's FF
    assert forall|j: int| 0 <= j < glen && j + 1 < len1 implies !soi_at(c1, j) by {
        if j + 1 < glen {
            assert(c1[j] == g[j] && c1[j + 1] == g[j + 1]);
            assert(!soi_at(g, j));
        } else {
            assert(c1[j + 1] == soi[0]);
        }
    }
    lemma_skip_garbage(idle_model(), cap, c1, 0, g.len());
    // the start marker opens the frame
    assert(c1[glen] == 0xFF && c1[glen + 1] == 0xD8);
    let s_open = ScanModel { in_frame: true, acc: soi, frames: Seq::empty() };
    assert(scan(idle_model(), cap, c1, glen as nat) == scan(s_open, cap, c1, (glen + 2) as nat));
    // the rest of the chunk is buffered verbatim
    assert forall|j: int| glen + 2 <= j < len1 && j + 1 < len1 implies !eoi_at(c1, j) by {
        assert(c1[j] == mid1[j - glen - 2] && c1[j + 1] == mid1[j - glen - 1]);
        assert(!eoi_at(mid1, j - glen - 2));
    }
    lemma_accumulate(s_open, cap, c1, (glen + 2) as nat, c1.len());
    assert(soi + c1.subrange(glen + 2, len1) =~= soi + mid1);
    let open = ScanModel { in_frame: true, acc: soi + mid1, frames: Seq::empty() };
    assert(scan(idle_model(), cap, c1, 0) == open);
    // second chunk: buffer up to the end marker
    let c2 = mid2 + eoi + tail;
    let m2len = mid2.len() as int;
    let len2 = c2.len() as int;
    assert forall|j: int| 0 <= j < m2len && j + 1 < len2 implies !eoi_at(c2, j) by {
        if j + 1 < m2len {
            assert(c2[j] == mid2[j] && c2[j + 1] == mid2[j + 1]);
            assert(!eoi_at(mid2, j));
        } else {
            assert(c2[j + 1] == eoi[0]);
        }
    }
    lemma_accumulate(open, cap, c2, 0, mid2.len());
    assert((soi + mid1) + c2.subrange(0, m2len) =~= soi + mid1 + mid2);
    let full = ScanModel { in_frame: true, acc: soi + mid1 + mid2, frames: Seq::empty() };
    // the end marker completes and emits the frame
    assert(c2[m2len] == 0xFF && c2[m2len + 1] == 0xD9);
    assert(full.acc.len() + 2 <= cap);
    let done = ScanModel {
        in_frame: false,
        acc: Seq::empty(),
        frames: seq![soi + mid1 + mid2 + eoi],
    };
    assert(Seq::<Seq<u8>>::empty().push(full.acc + eoi) =~= seq![soi + mid1 + mid2 + eoi]);
    assert(scan(full, cap, c2, m2len as nat) == scan(done, cap, c2, (m2len + 2) as nat));
    // nothing in the trailing bytes opens another frame
    assert forall|j: int| m2len + 2 <= j < len2 && j + 1 < len2 implies !soi_at(c2, j) by {
        assert(c2[j] == tail[j - m2len - 2] && c2[j + 1] == tail[j - m2len - 1]);
        assert(!soi_at(tail, j - m2len - 2));
    }
    lemma_skip_garbage(done, cap, c2, (m2len + 2) as nat, c2.len());
}
} // verus!
