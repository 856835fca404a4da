//! Which received buffers the frame reader can be given safely.
//!
//! Reading a frame walks it the way the Redis wire grammar does: a type
//! byte, a line ended by `\r\n`, and for a bulk string a length and that
//! many bytes, for an array a count and that many frames. Two things in
//! that walk can go wrong on a machine: a bulk length so large that adding
//! two to it overflows `usize`, and arrays nested so deeply that the walk
//! runs out of stack (see [`max_nesting`] for the figure), or an array count
//! whose storage would exceed what an allocation may take. The scan below follows the same walk over the
//! first frame of a buffer and reports such a hazard where the walk meets
//! it; bytes that the walk never reads as a length (the contents of a bulk
//! string, later frames) play no part.

use vstd::prelude::*;

use crate::redis::{
    all_digits, crlf, decimal_bytes, decimal_line_bytes, decimal_value, encode, lemma_decimal_round_trip,
    RespFrameView,
};

verus! {

/// Deepest array nesting that the frame reader is given: a frame is walked
/// no deeper than this many arrays. Reading a frame recurses once per level
/// of arrays, in `mini_redis::Frame::check`, in `Frame::parse` and in turning
/// the frame into the library's, and the server reads on tokio worker
/// threads, which get a 2 MiB stack. On such a thread, in the test builds
/// here, reading, answering and dropping a frame fits at 1024 levels and
/// overflows the stack before 1100; the test
/// `deepest_frame_fits_a_worker_stack` reads one at this depth.
pub open spec fn max_nesting() -> int {
    1024
}

/// Where the first frame in the bytes ends, or why the walk stops.
pub ghost enum Scan {
    /// The frame is complete and ends just before this position.
    End(int),
    /// The walk stops without a hazard: more bytes are needed, or the bytes
    /// are no frame.
    Stop,
    /// The walk would meet a length or nesting that the machine cannot
    /// take.
    Hazard,
}

/// Whether `c` is an ASCII digit.
pub open spec fn is_digit(c: u8) -> bool {
    48 <= c <= 57
}

/// The first `\r\n` that starts at or after `i`: where the line that
/// starts at `i` ends.
pub open spec fn line_end(b: Seq<u8>, i: int) -> Option<int>
    decreases b.len() - i,
{
    if i < 0 || i + 1 >= b.len() {
        None
    } else if b[i] == 13u8 && b[i + 1] == 10u8 {
        Some(i)
    } else {
        line_end(b, i + 1)
    }
}

/// The end of the run of digits that starts at `i`, stopping at `e`.
pub open spec fn digit_run(b: Seq<u8>, i: int, e: int) -> int
    decreases e - i,
{
    if i >= e || !is_digit(b[i]) {
        i
    } else {
        digit_run(b, i + 1, e)
    }
}

/// The number that the digits `b[p..j]` write.
pub open spec fn digits_value(b: Seq<u8>, p: int, j: int) -> nat
    decreases j - p,
{
    if j <= p {
        0
    } else {
        digits_value(b, p, j - 1) * 10 + (b[j - 1] - 48) as nat
    }
}

/// The number that the line `b[p..e]` starts with, as a `u64`: `None` when
/// it starts with no digit or the number does not fit.
pub open spec fn line_number(b: Seq<u8>, p: int, e: int) -> Option<u64> {
    let k = digit_run(b, p, e);
    if k == p || digits_value(b, p, k) > u64::MAX {
        None
    } else {
        Some(digits_value(b, p, k) as u64)
    }
}

/// The walk over one frame that starts at `pos`, inside `depth` arrays.
pub open spec fn scan(b: Seq<u8>, pos: int, depth: int) -> Scan
    decreases b.len() - pos, 1int,
{
    if depth > max_nesting() {
        Scan::Hazard
    } else if pos < 0 || pos >= b.len() {
        Scan::Stop
    } else {
        let t = b[pos];
        let p = pos + 1;
        if t == 43u8 || t == 45u8 || t == 58u8 {
            match line_end(b, p) {
                None => Scan::Stop,
                Some(e) => if t == 58u8 && line_number(b, p, e) is None {
                    Scan::Stop
                } else {
                    Scan::End(e + 2)
                },
            }
        } else if t == 36u8 {
            if p >= b.len() {
                Scan::Stop
            } else if b[p] == 45u8 {
                if b.len() - p < 4 {
                    Scan::Stop
                } else {
                    Scan::End(p + 4)
                }
            } else {
                match line_end(b, p) {
                    None => Scan::Stop,
                    Some(e) => match line_number(b, p, e) {
                        None => Scan::Stop,
                        Some(v) => if v > usize::MAX {
                            Scan::Stop
                        } else if v + 2 > usize::MAX {
                            Scan::Hazard
                        } else if b.len() - (e + 2) < v + 2 {
                            Scan::Stop
                        } else {
                            Scan::End(e + 2 + v + 2)
                        },
                    },
                }
            }
        } else if t == 42u8 {
            match line_end(b, p) {
                None => Scan::Stop,
                Some(e) => match line_number(b, p, e) {
                    None => Scan::Stop,
                    Some(v) => if v > usize::MAX / 128 {
                        Scan::Hazard
                    } else if pos < e + 2 <= b.len() {
                        scan_items(b, e + 2, v as int, depth + 1)
                    } else {
                        Scan::Stop
                    },
                },
            }
        } else {
            Scan::Stop
        }
    }
}

/// The walk over `count` frames in a row, starting at `pos`.
pub open spec fn scan_items(b: Seq<u8>, pos: int, count: int, depth: int) -> Scan
    decreases b.len() - pos, 2int,
{
    if count <= 0 {
        Scan::End(pos)
    } else {
        match scan(b, pos, depth) {
            Scan::End(q) => if pos < q <= b.len() {
                scan_items(b, q, count - 1, depth)
            } else {
                Scan::Stop
            },
            other => other,
        }
    }
}

/// The buffers that the frame reader is given: the walk over the first
/// frame meets no hazard.
pub open spec fn frame_input_ok(b: Seq<u8>) -> bool {
    !(scan(b, 0, 0) is Hazard)
}

/// The wire form of `parts` sent as an array of bulk strings, as a client
/// sends a command: `*`, the count, and each part as a bulk string.
pub open spec fn bulk_array_bytes(parts: Seq<Seq<u8>>) -> Seq<u8> {
    seq![42u8] + decimal_line_bytes(parts.len()) + bulks_bytes(parts)
}

/// The parts written one after another as bulk strings.
pub open spec fn bulks_bytes(parts: Seq<Seq<u8>>) -> Seq<u8>
    decreases parts.len(),
{
    if parts.len() == 0 {
        Seq::empty()
    } else {
        encode(RespFrameView::Bulk(parts[0])) + bulks_bytes(parts.drop_first())
    }
}

/// The frames of `parts` as bulk strings.
pub open spec fn bulk_frames(parts: Seq<Seq<u8>>) -> Seq<RespFrameView> {
    Seq::new(parts.len(), |i: int| RespFrameView::Bulk(parts[i]))
}

/// `b` begins with the bytes `w`.
pub open spec fn begins_with(b: Seq<u8>, w: Seq<u8>) -> bool {
    w.len() <= b.len() && b.take(w.len() as int) == w
}

proof fn lemma_line_end_skips(b: Seq<u8>, i: int, j: int)
    requires
        0 <= i <= j,
        j + 1 < b.len(),
        forall|t: int| i <= t < j ==> b[t] != 13u8,
    ensures
        line_end(b, i) == line_end(b, j),
    decreases j - i,
{
    if i < j {
        lemma_line_end_skips(b, i + 1, j);
    }
}

proof fn lemma_digit_run_to(b: Seq<u8>, i: int, e: int)
    requires
        i <= e,
        forall|t: int| i <= t < e ==> is_digit(b[t]),
    ensures
        digit_run(b, i, e) == e,
    decreases e - i,
{
    if i < e {
        lemma_digit_run_to(b, i + 1, e);
    }
}

proof fn lemma_digits_value_is_decimal(b: Seq<u8>, p: int, j: int)
    requires
        0 <= p <= j <= b.len(),
    ensures
        digits_value(b, p, j) == decimal_value(b.subrange(p, j)),
    decreases j - p,
{
    if j > p {
        lemma_digits_value_is_decimal(b, p, j - 1);
        assert(b.subrange(p, j).drop_last() == b.subrange(p, j - 1));
    } else {
        assert(b.subrange(p, j).len() == 0);
    }
}

/// A number line written at `p` reads back as the number.
proof fn lemma_number_line(b: Seq<u8>, p: int, n: nat)
    requires
        0 <= p,
        n <= u64::MAX,
        p + decimal_line_bytes(n).len() <= b.len(),
        b.subrange(p, p + decimal_line_bytes(n).len()) == decimal_line_bytes(n),
    ensures
        line_end(b, p) == Some(p + decimal_bytes(n).len()),
        line_number(b, p, p + decimal_bytes(n).len()) == Some(n as u64),
        is_digit(b[p]),
{
    lemma_decimal_round_trip(n);
    let d = decimal_bytes(n);
    let k = d.len() as int;
    assert forall|t: int| p <= t < p + k implies is_digit(b[t]) by {
        assert(b[t] == b.subrange(p, p + decimal_line_bytes(n).len())[t - p]);
        assert(decimal_line_bytes(n)[t - p] == d[t - p]);
    }
    assert(b[p + k] == b.subrange(p, p + decimal_line_bytes(n).len())[k]);
    assert(b[p + k + 1] == b.subrange(p, p + decimal_line_bytes(n).len())[k + 1]);
    lemma_line_end_skips(b, p, p + k);
    lemma_digit_run_to(b, p, p + k);
    lemma_digits_value_is_decimal(b, p, p + k);
    assert(b.subrange(p, p + k) =~= d);
    assert(b[p] == d[0]);
}

proof fn lemma_scan_bulk(b: Seq<u8>, pos: int, data: Seq<u8>, depth: int)
    requires
        0 <= pos,
        0 <= depth <= max_nesting(),
        b.len() <= usize::MAX,
        pos + encode(RespFrameView::Bulk(data)).len() <= b.len(),
        b.subrange(pos, pos + encode(RespFrameView::Bulk(data)).len()) == encode(RespFrameView::Bulk(data)),
    ensures
        scan(b, pos, depth) == Scan::End(pos + encode(RespFrameView::Bulk(data)).len()),
{
    let enc = encode(RespFrameView::Bulk(data));
    let line = decimal_line_bytes(data.len());
    let k = decimal_bytes(data.len()).len() as int;
    assert(enc == seq![36u8] + line + data + crlf());
    assert(b[pos] == enc[0]);
    assert(b.subrange(pos + 1, pos + 1 + line.len()) =~= line) by {
        assert forall|t: int| 0 <= t < line.len() implies b.subrange(pos + 1, pos + 1 + line.len())[t]
            == line[t] by {
            assert(b[pos + 1 + t] == enc[1 + t]);
        }
    }
    lemma_number_line(b, pos + 1, data.len());
}

proof fn lemma_scan_bulks(b: Seq<u8>, pos: int, parts: Seq<Seq<u8>>, depth: int)
    requires
        0 <= pos,
        0 <= depth <= max_nesting(),
        b.len() <= usize::MAX,
        pos + bulks_bytes(parts).len() <= b.len(),
        b.subrange(pos, pos + bulks_bytes(parts).len()) == bulks_bytes(parts),
    ensures
        scan_items(b, pos, parts.len() as int, depth) == Scan::End(pos + bulks_bytes(parts).len()),
    decreases parts.len(),
{
    if parts.len() > 0 {
        let first = encode(RespFrameView::Bulk(parts[0]));
        let rest = bulks_bytes(parts.drop_first());
        assert(bulks_bytes(parts) == first + rest);
        assert(b.subrange(pos, pos + first.len()) =~= first) by {
            assert forall|t: int| 0 <= t < first.len() implies b.subrange(pos, pos + first.len())[t]
                == first[t] by {
                assert(b[pos + t] == bulks_bytes(parts)[t]);
            }
        }
        assert(b.subrange(pos + first.len(), pos + first.len() + rest.len()) =~= rest) by {
            assert forall|t: int| 0 <= t < rest.len() implies b.subrange(
                pos + first.len(),
                pos + first.len() + rest.len(),
            )[t] == rest[t] by {
                assert(b[pos + first.len() + t] == bulks_bytes(parts)[first.len() + t]);
            }
        }
        lemma_scan_bulk(b, pos, parts[0], depth);
        lemma_scan_bulks(b, pos + first.len(), parts.drop_first(), depth);
    }
}

/// A buffer that begins with a command sent as an array of bulk strings
/// holds one complete frame that ends where the command's bytes end, and
/// reading it meets no hazard.
pub proof fn lemma_scan_bulk_array(b: Seq<u8>, parts: Seq<Seq<u8>>)
    requires
        b.len() <= usize::MAX,
        parts.len() <= usize::MAX / 128,
        begins_with(b, bulk_array_bytes(parts)),
    ensures
        scan(b, 0, 0) == Scan::End(bulk_array_bytes(parts).len() as int),
        frame_input_ok(b),
{
    let w = bulk_array_bytes(parts);
    let line = decimal_line_bytes(parts.len());
    let body = bulks_bytes(parts);
    let ll = line.len() as int;
    let bl = body.len() as int;
    assert(w == seq![42u8] + line + body);
    assert(b[0] == w[0]);
    assert(b.subrange(1, 1 + ll) =~= line) by {
        assert forall|t: int| 0 <= t < ll implies b.subrange(1, 1 + ll)[t] == line[t] by {
            assert(b[1 + t] == w[1 + t]);
        }
    }
    lemma_number_line(b, 1, parts.len());
    let start = 1 + ll;
    assert(b.subrange(start, start + bl) =~= body) by {
        assert forall|t: int| 0 <= t < bl implies b.subrange(start, start + bl)[t]
            == body[t] by {
            assert(b[start + t] == w[start + t]);
        }
    }
    lemma_scan_bulks(b, start, parts, 1);
}

/// `b` and `w` hold the same byte wherever both have one.
pub open spec fn agree(b: Seq<u8>, w: Seq<u8>) -> bool {
    forall|i: int| #![trigger b[i]] #![trigger w[i]] 0 <= i < b.len() && i < w.len() ==> b[i] == w[i]
}

proof fn lemma_line_end_none(b: Seq<u8>, i: int)
    requires
        0 <= i,
        forall|t: int| i <= t && t + 1 < b.len() ==> #[trigger] b[t] != 13u8,
    ensures
        line_end(b, i) is None,
    decreases b.len() - i,
{
    if i + 1 < b.len() {
        assert(b[i] != 13u8);
        lemma_line_end_none(b, i + 1);
    }
}

/// A number line of `w` at `p`, seen through bytes `b` that agree with `w`:
/// read back when all of it is in `b`, no line yet when it is cut short.
proof fn lemma_number_line_seen(b: Seq<u8>, w: Seq<u8>, p: int, n: nat)
    requires
        0 <= p,
        n <= u64::MAX,
        p + decimal_line_bytes(n).len() <= w.len(),
        w.subrange(p, p + decimal_line_bytes(n).len()) == decimal_line_bytes(n),
        agree(b, w),
    ensures
        p + decimal_line_bytes(n).len() <= b.len() ==> line_end(b, p) == Some(p + decimal_bytes(n).len())
            && line_number(b, p, p + decimal_bytes(n).len()) == Some(n as u64),
        p + decimal_line_bytes(n).len() > b.len() ==> line_end(b, p) is None,
        p < b.len() ==> is_digit(b[p]),
{
    lemma_decimal_round_trip(n);
    let line = decimal_line_bytes(n);
    let d = decimal_bytes(n);
    let k = d.len() as int;
    let l = line.len() as int;
    assert forall|t: int| p <= t < p + k implies is_digit(w[t]) by {
        assert(w[t] == w.subrange(p, p + l)[t - p]);
        assert(line[t - p] == d[t - p]);
    }
    if p < b.len() {
        assert(b[p] == w[p]);
    }
    if p + l <= b.len() {
        assert(b.subrange(p, p + l) =~= line) by {
            assert forall|t: int| 0 <= t < l implies b.subrange(p, p + l)[t] == line[t] by {
                assert(b[p + t] == w[p + t]);
                assert(w[p + t] == w.subrange(p, p + l)[t]);
            }
        }
        lemma_number_line(b, p, n);
    } else {
        assert forall|t: int| p <= t && t + 1 < b.len() implies #[trigger] b[t] != 13u8 by {
            assert(b[t] == w[t]);
        }
        lemma_line_end_none(b, p);
    }
}

proof fn lemma_scan_bulk_seen(b: Seq<u8>, w: Seq<u8>, pos: int, data: Seq<u8>, depth: int)
    requires
        0 <= pos,
        0 <= depth <= max_nesting(),
        w.len() <= usize::MAX,
        pos + encode(RespFrameView::Bulk(data)).len() <= w.len(),
        w.subrange(pos, pos + encode(RespFrameView::Bulk(data)).len()) == encode(RespFrameView::Bulk(data)),
        agree(b, w),
    ensures
        scan(b, pos, depth) == (if pos + encode(RespFrameView::Bulk(data)).len() <= b.len() {
            Scan::End(pos + encode(RespFrameView::Bulk(data)).len())
        } else {
            Scan::Stop
        }),
{
    let enc = encode(RespFrameView::Bulk(data));
    let line = decimal_line_bytes(data.len());
    let ll = line.len() as int;
    assert(enc == seq![36u8] + line + data + crlf());
    assert(w[pos] == enc[0]);
    assert(w.subrange(pos + 1, pos + 1 + ll) =~= line) by {
        assert forall|t: int| 0 <= t < ll implies w.subrange(pos + 1, pos + 1 + ll)[t] == line[t] by {
            assert(w[pos + 1 + t] == w.subrange(pos, pos + enc.len())[1 + t]);
        }
    }
    assert(w[pos] == w.subrange(pos, pos + enc.len())[0]);
    lemma_number_line_seen(b, w, pos + 1, data.len());
    if pos < b.len() {
        assert(b[pos] == w[pos]);
    }
}

proof fn lemma_scan_bulks_seen(b: Seq<u8>, w: Seq<u8>, pos: int, parts: Seq<Seq<u8>>, depth: int)
    requires
        0 <= pos <= b.len(),
        0 <= depth <= max_nesting(),
        w.len() <= usize::MAX,
        pos + bulks_bytes(parts).len() <= w.len(),
        w.subrange(pos, pos + bulks_bytes(parts).len()) == bulks_bytes(parts),
        agree(b, w),
    ensures
        scan_items(b, pos, parts.len() as int, depth) == (if pos + bulks_bytes(parts).len() <= b.len() {
            Scan::End(pos + bulks_bytes(parts).len())
        } else {
            Scan::Stop
        }),
    decreases parts.len(),
{
    if parts.len() > 0 {
        let first = encode(RespFrameView::Bulk(parts[0]));
        let rest = bulks_bytes(parts.drop_first());
        let fl = first.len() as int;
        let rl = rest.len() as int;
        assert(bulks_bytes(parts) == first + rest);
        assert(w.subrange(pos, pos + fl) =~= first) by {
            assert forall|t: int| 0 <= t < fl implies w.subrange(pos, pos + fl)[t] == first[t] by {
                assert(w[pos + t] == w.subrange(pos, pos + bulks_bytes(parts).len())[t]);
            }
        }
        assert(w.subrange(pos + fl, pos + fl + rl) =~= rest) by {
            assert forall|t: int| 0 <= t < rl implies w.subrange(pos + fl, pos + fl + rl)[t] == rest[t] by {
                assert(w[pos + fl + t] == w.subrange(pos, pos + bulks_bytes(parts).len())[fl + t]);
            }
        }
        lemma_scan_bulk_seen(b, w, pos, parts[0], depth);
        if pos + fl <= b.len() {
            lemma_scan_bulks_seen(b, w, pos + fl, parts.drop_first(), depth);
        }
    }
}

/// Bytes that agree with a command sent as an array of bulk strings, for as
/// far as they go: the walk ends where the command ends when all of it is
/// there, and stops for want of bytes when it is not.
proof fn lemma_scan_bulk_array_seen(b: Seq<u8>, parts: Seq<Seq<u8>>)
    requires
        bulk_array_bytes(parts).len() <= usize::MAX,
        parts.len() <= usize::MAX / 128,
        agree(b, bulk_array_bytes(parts)),
    ensures
        scan(b, 0, 0) == (if bulk_array_bytes(parts).len() <= b.len() {
            Scan::End(bulk_array_bytes(parts).len() as int)
        } else {
            Scan::Stop
        }),
{
    let w = bulk_array_bytes(parts);
    let line = decimal_line_bytes(parts.len());
    let body = bulks_bytes(parts);
    let ll = line.len() as int;
    let bl = body.len() as int;
    assert(w == seq![42u8] + line + body);
    assert(w.subrange(1, 1 + ll) =~= line) by {
        assert forall|t: int| 0 <= t < ll implies w.subrange(1, 1 + ll)[t] == line[t] by {
            assert(w[1 + t] == (seq![42u8] + line + body)[1 + t]);
        }
    }
    lemma_number_line_seen(b, w, 1, parts.len());
    if b.len() > 0 {
        assert(b[0] == w[0]);
    }
    let start = 1 + ll;
    assert(w.subrange(start, start + bl) =~= body) by {
        assert forall|t: int| 0 <= t < bl implies w.subrange(start, start + bl)[t] == body[t] by {
            assert(w[start + t] == (seq![42u8] + line + body)[start + t]);
        }
    }
    if start <= b.len() {
        lemma_scan_bulks_seen(b, w, start, parts, 1);
    }
}

/// However few bytes of a command sent as an array of bulk strings have
/// arrived, they meet no hazard: the walk stops for want of bytes until the
/// whole command is there, and then ends where the command ends.
pub proof fn lemma_command_prefix_waits(b: Seq<u8>, parts: Seq<Seq<u8>>)
    requires
        bulk_array_bytes(parts).len() <= usize::MAX,
        parts.len() <= usize::MAX / 128,
        begins_with(bulk_array_bytes(parts), b),
    ensures
        scan(b, 0, 0) == (if b.len() == bulk_array_bytes(parts).len() {
            Scan::End(bulk_array_bytes(parts).len() as int)
        } else {
            Scan::Stop
        }),
        frame_input_ok(b),
{
    let w = bulk_array_bytes(parts);
    assert forall|i: int| 0 <= i < b.len() && i < w.len() implies b[i] == w[i] by {
        assert(b[i] == w.take(b.len() as int)[i]);
    }
    lemma_scan_bulk_array_seen(b, parts);
}

/// The outcome of a walk, as the code computes it.
pub enum ScanOutcome {
    End(usize),
    Stop,
    Hazard,
}

impl ScanOutcome {
    pub open spec fn denotes(&self, s: Scan) -> bool {
        match self {
            ScanOutcome::End(n) => s == Scan::End(*n as int),
            ScanOutcome::Stop => s == Scan::Stop,
            ScanOutcome::Hazard => s == Scan::Hazard,
        }
    }
}

fn find_line_end(b: &[u8], start: usize) -> (r: Option<usize>)
    ensures
        match line_end(b@, start as int) {
            None => r is None,
            Some(e) => r == Some(e as usize) && start <= e && e + 2 <= b@.len(),
        },
{
    let mut i = start;
    while i < b.len() && b.len() - i > 1
        invariant
            start <= i,
            line_end(b@, start as int) == line_end(b@, i as int),
        decreases b@.len() - i,
    {
        if b[i] == 13u8 && b[i + 1] == 10u8 {
            return Some(i);
        }
        i = i + 1;
    }
    None
}

proof fn lemma_digits_grow(b: Seq<u8>, p: int, j: int, k: int)
    requires
        p <= j <= k,
        forall|i: int| p <= i < k ==> is_digit(#[trigger] b[i]),
    ensures
        digits_value(b, p, j) <= digits_value(b, p, k),
    decreases k - j,
{
    if j < k {
        lemma_digits_grow(b, p, j, k - 1);
    }
}

fn read_line_number(b: &[u8], p: usize, e: usize) -> (r: Option<u64>)
    requires
        p <= e <= b@.len(),
    ensures
        r == line_number(b@, p as int, e as int),
{
    let mut j = p;
    let mut val: Option<u64> = Some(0);
    while j < e && 48u8 <= b[j] && b[j] <= 57u8
        invariant
            p <= j <= e <= b@.len(),
            digit_run(b@, p as int, e as int) == digit_run(b@, j as int, e as int),
            forall|i: int| p <= i < j ==> is_digit(#[trigger] b@[i]),
            match val {
                Some(v) => v == digits_value(b@, p as int, j as int),
                None => digits_value(b@, p as int, j as int) > u64::MAX,
            },
        decreases e - j,
    {
        let d = (b[j] - 48u8) as u64;
        proof {
            lemma_digits_grow(b@, p as int, j as int, j + 1);
        }
        match val {
            Some(v) => {
                match v.checked_mul(10) {
                    Some(m) => {
                        val = m.checked_add(d);
                    },
                    None => {
                        val = None;
                    },
                }
            },
            None => {},
        }
        j = j + 1;
    }
    if j == p {
        None
    } else {
        val
    }
}

fn scan_exec(b: &[u8], pos: usize, depth: usize) -> (r: ScanOutcome)
    requires
        depth <= max_nesting() + 1,
    ensures
        r.denotes(scan(b@, pos as int, depth as int)),
    decreases b@.len() - pos, 1int,
{
    if depth > 1024 {
        return ScanOutcome::Hazard;
    }
    if pos >= b.len() {
        return ScanOutcome::Stop;
    }
    let t = b[pos];
    let p = pos + 1;
    if t == 43u8 || t == 45u8 || t == 58u8 {
        match find_line_end(b, p) {
            None => ScanOutcome::Stop,
            Some(e) => {
                if t == 58u8 && read_line_number(b, p, e).is_none() {
                    ScanOutcome::Stop
                } else {
                    ScanOutcome::End(e + 2)
                }
            },
        }
    } else if t == 36u8 {
        if p >= b.len() {
            ScanOutcome::Stop
        } else if b[p] == 45u8 {
            if b.len() - p < 4 {
                ScanOutcome::Stop
            } else {
                ScanOutcome::End(p + 4)
            }
        } else {
            match find_line_end(b, p) {
                None => ScanOutcome::Stop,
                Some(e) => match read_line_number(b, p, e) {
                    None => ScanOutcome::Stop,
                    Some(v) => {
                        if v > usize::MAX as u64 {
                            ScanOutcome::Stop
                        } else if v >= (usize::MAX - 1) as u64 {
                            ScanOutcome::Hazard
                        } else {
                            let n = v as usize;
                            if b.len() - (e + 2) < n + 2 {
                                ScanOutcome::Stop
                            } else {
                                ScanOutcome::End(e + 2 + n + 2)
                            }
                        }
                    },
                },
            }
        }
    } else if t == 42u8 {
        match find_line_end(b, p) {
            None => ScanOutcome::Stop,
            Some(e) => match read_line_number(b, p, e) {
                None => ScanOutcome::Stop,
                Some(v) => {
                    if v > (usize::MAX / 128) as u64 {
                        ScanOutcome::Hazard
                    } else {
                        scan_items_exec(b, e + 2, v as usize, depth + 1)
                    }
                },
            },
        }
    } else {
        ScanOutcome::Stop
    }
}

fn scan_items_exec(b: &[u8], pos: usize, count: usize, depth: usize) -> (r: ScanOutcome)
    requires
        depth <= max_nesting() + 1,
        pos <= b@.len(),
    ensures
        r.denotes(scan_items(b@, pos as int, count as int, depth as int)),
    decreases b@.len() - pos, 2int,
{
    let mut p = pos;
    let mut left = count;
    loop
        invariant
            pos <= p <= b@.len(),
            depth <= max_nesting() + 1,
            left <= count,
            scan_items(b@, pos as int, count as int, depth as int) == scan_items(
                b@,
                p as int,
                left as int,
                depth as int,
            ),
        decreases left,
    {
        if left == 0 {
            return ScanOutcome::End(p);
        }
        match scan_exec(b, p, depth) {
            ScanOutcome::End(q) => {
                if p < q && q <= b.len() {
                    p = q;
                    left = left - 1;
                } else {
                    return ScanOutcome::Stop;
                }
            },
            ScanOutcome::Stop => {
                return ScanOutcome::Stop;
            },
            ScanOutcome::Hazard => {
                return ScanOutcome::Hazard;
            },
        }
    }
}

/// Whether [`frame_input_ok`] holds of `buf`.
pub fn frame_input_acceptable(buf: &[u8]) -> (r: bool)
    ensures
        r == frame_input_ok(buf@),
{
    match scan_exec(buf, 0, 0) {
        ScanOutcome::Hazard => false,
        _ => true,
    }
}

} // verus!
