//! Client-side tail-repetition detection.
//!
//! A stuck model repeats the same bytes verbatim, dozens of times, without
//! drift. Detection is exact byte periodicity of the tail of the accumulated
//! text: legitimately repetitive output (tables, lists, arrays of similar
//! objects) varies between rows and is therefore not byte-periodic.
//!
//! Detections are reported, not acted upon.

use vstd::prelude::*;
use vstd::string::*;

use crate::decimal::{decimal, decimal_string};

verus! {

/// Longest repeating unit considered.
pub const MAX_PERIOD: usize = 128;

/// Only this many bytes at the end of the text are examined, so the cost of a
/// scan does not grow with the response.
pub const WINDOW: usize = 8192;

/// The repeated region must cover at least this many bytes.
pub const MIN_SPAN: usize = 256;

/// The unit must repeat at least this many times.
pub const MIN_REPEATS: u32 = 8;

/// A unit of so few distinct bytes is ambiguous: rules and blank-line runs are
/// legitimate output, so it needs a longer run. The bar keys on the content of
/// the unit, not on its length, so that every description of a run agrees.
pub const LOW_DIVERSITY_BYTES: usize = 2;

/// The bytes that a unit of low diversity must cover.
pub const LOW_DIVERSITY_MIN_SPAN: usize = 512;

/// Rescan only after this many new bytes.
pub const SCAN_STRIDE: usize = 64;

/// Channel label of the response text.
pub const CHANNEL_RESPONSE: &'static str = "response";

/// Channel label of the reasoning text.
pub const CHANNEL_THINKING: &'static str = "thinking";

/// A repeating tail: a unit of `period` bytes, repeated `repeats` times,
/// covering `span` bytes.
#[derive(Debug, Clone, Copy, PartialEq, Eq, Structural)]
pub struct Detection {
    pub period: usize,
    pub repeats: u32,
    pub span: usize,
}

/// What a signal reports.
#[derive(Debug, Clone, PartialEq, Eq)]
pub enum DoomLoopSignalKind {
    /// The tail repeats a unit this many times.
    TailRepetition(u32),
}

/// A report of degenerate generation on one channel.
#[derive(Debug, Clone, PartialEq, Eq)]
pub struct DoomLoopSignal {
    pub kind: DoomLoopSignalKind,
    pub channel: String,
    /// The trigger label, as a server would spell it.
    pub raw: String,
}

/// The part of a text that is examined: its last [`WINDOW`] bytes.
pub open spec fn window(bytes: Seq<u8>) -> Seq<u8> {
    if bytes.len() <= WINDOW {
        bytes
    } else {
        bytes.skip(bytes.len() - WINDOW)
    }
}

/// The last `n` bytes.
pub open spec fn tail(bytes: Seq<u8>, n: int) -> Seq<u8> {
    bytes.skip(bytes.len() - n)
}

/// How many copies of `unit` stand at the end of `bytes`, one after the other.
pub open spec fn copies(bytes: Seq<u8>, unit: Seq<u8>) -> nat
    decreases bytes.len(),
{
    if 0 < unit.len() <= bytes.len() && tail(bytes, unit.len() as int) == unit {
        1 + copies(bytes.take(bytes.len() - unit.len()), unit)
    } else {
        0
    }
}

/// The bytes that a repeating unit must cover to count as degenerate.
pub open spec fn required_span(unit: Seq<u8>) -> nat {
    if unit.to_set().len() <= LOW_DIVERSITY_BYTES {
        LOW_DIVERSITY_MIN_SPAN as nat
    } else {
        MIN_SPAN as nat
    }
}

/// The last `period` bytes of the window repeat, at its end, often enough and
/// over a long enough stretch to be degenerate rather than incidental.
pub open spec fn degenerate(window: Seq<u8>, period: int) -> bool {
    let unit = tail(window, period);
    let repeats = copies(window, unit);
    &&& repeats >= MIN_REPEATS
    &&& repeats * period >= required_span(unit)
}

/// The periods that are tried on a window.
pub open spec fn period_in_range(window: Seq<u8>, period: int) -> bool {
    1 <= period <= MAX_PERIOD && period <= window.len() / 2
}

/// `found` describes the shortest degenerate repetition at the end of `bytes`.
pub open spec fn describes(bytes: Seq<u8>, found: Detection) -> bool {
    let w = window(bytes);
    let p = found.period as int;
    &&& bytes.len() >= MIN_SPAN
    &&& period_in_range(w, p)
    &&& degenerate(w, p)
    &&& forall|q: int| 1 <= q < p ==> !degenerate(w, q)
    &&& found.repeats == copies(w, tail(w, p))
    &&& found.span == found.repeats * p
}

/// Nothing at the end of `bytes` repeats degenerately.
pub open spec fn healthy(bytes: Seq<u8>) -> bool {
    bytes.len() < MIN_SPAN || forall|q: int|
        period_in_range(window(bytes), q) ==> !degenerate(window(bytes), q)
}

/// The trigger label of a repetition.
pub open spec fn trigger_label(repeats: nat, channel: Seq<char>) -> Seq<char> {
    "tail_repetition:"@ + decimal(repeats) + "@"@ + channel
}

/// Whether the `n` bytes from `a` on are those from `b` on.
fn same_block(bytes: &[u8], a: usize, b: usize, n: usize) -> (r: bool)
    requires
        a + n <= bytes@.len(),
        b + n <= bytes@.len(),
    ensures
        r == (bytes@.subrange(a as int, a + n) == bytes@.subrange(b as int, b + n)),
{
    let mut k: usize = 0;
    let len: usize = bytes.len();
    let ghost x = bytes@.subrange(a as int, a + n);
    let ghost y = bytes@.subrange(b as int, b + n);
    while k < n
        invariant
            k <= n,
            len == bytes@.len(),
            a + n <= bytes@.len(),
            b + n <= bytes@.len(),
            x == bytes@.subrange(a as int, a + n),
            y == bytes@.subrange(b as int, b + n),
            forall|j: int| 0 <= j < k ==> x[j] == y[j],
        decreases n - k,
    {
        if bytes[a + k] != bytes[b + k] {
            assert(x[k as int] != y[k as int]);
            return false;
        }
        k += 1;
    }
    assert(x =~= y);
    true
}

/// Count the distinct byte values of `unit`.
pub fn distinct_bytes(unit: &[u8]) -> (r: usize)
    ensures
        r == unit@.to_set().len(),
{
    let mut seen: Vec<bool> = vec![false; 256];
    let mut count: usize = 0;
    let mut i: usize = 0;
    assert(unit@.take(0).to_set() =~= Set::<u8>::empty());
    while i < unit.len()
        invariant
            i <= unit@.len(),
            seen@.len() == 256,
            forall|b: u8| #[trigger] seen@[b as int] <==> unit@.take(i as int).contains(b),
            count == unit@.take(i as int).to_set().len(),
            count <= i,
        decreases unit@.len() - i,
    {
        let b: u8 = unit[i];
        let ghost before = unit@.take(i as int);
        let ghost after = unit@.take(i + 1);
        proof {
            assert(after =~= before.push(b));
            assert(after.to_set() =~= before.to_set().insert(b)) by {
                assert forall|x: u8| after.to_set().contains(x) <==> before.to_set().insert(
                    b,
                ).contains(x) by {
                    if before.contains(x) {
                        let k = before.index_of(x);
                        assert(after[k] == x);
                    }
                    if x == b {
                        assert(after[i as int] == b);
                    }
                    if after.contains(x) {
                        let k = after.index_of(x);
                        if k < i {
                            assert(before[k] == x);
                        }
                    }
                }
            }
            before.lemma_cardinality_of_set();
            assert forall|x: u8| after.contains(x) <==> (before.contains(x) || x == b) by {
                assert(after.to_set().contains(x) <==> before.to_set().insert(b).contains(x));
            }
        }
        if !seen[b as usize] {
            seen.set(b as usize, true);
            count += 1;
        }
        i += 1;
    }
    assert(unit@.take(i as int) =~= unit@);
    count
}

proof fn lemma_grow(repeats: int, period: int)
    ensures
        (repeats + 1) * period == repeats * period + period,
{
    assert((repeats + 1) * period == repeats * period + period) by (nonlinear_arith);
}

/// Find the shortest repeating unit at the very end of `text`, if the run is
/// long enough to be degenerate rather than incidental.
///
/// The shortest qualifying period is the true unit: text that repeats with
/// period 8 also repeats with period 16, and reporting 16 would halve the
/// apparent repeat count.
pub fn detect(text: &str) -> (r: Option<Detection>)
    ensures
        match r {
            Some(found) => describes(text.spec_bytes(), found),
            None => healthy(text.spec_bytes()),
        },
{
    detect_bytes(text.as_bytes())
}

fn detect_bytes(bytes: &[u8]) -> (r: Option<Detection>)
    ensures
        match r {
            Some(found) => describes(bytes@, found),
            None => healthy(bytes@),
        },
{
    let n: usize = bytes.len();
    if n < MIN_SPAN {
        return None;
    }
    let base: usize = if n > WINDOW {
        n - WINDOW
    } else {
        0
    };
    let wn: usize = n - base;
    let ghost w = window(bytes@);
    assert(w =~= bytes@.skip(base as int));
    let limit: usize = if MAX_PERIOD < wn / 2 {
        MAX_PERIOD
    } else {
        wn / 2
    };
    let mut period: usize = 1;
    while period <= limit
        invariant
            1 <= period <= limit + 1,
            limit <= MAX_PERIOD,
            limit <= wn / 2,
            limit == MAX_PERIOD || limit == wn / 2,
            n == bytes@.len(),
            n >= MIN_SPAN,
            base + wn == n,
            wn <= WINDOW,
            w == window(bytes@),
            w == bytes@.skip(base as int),
            forall|q: int| 1 <= q < period ==> !degenerate(w, q),
        decreases limit + 1 - period,
    {
        let ghost unit = tail(w, period as int);
        let ghost p = period as int;
        let last_at: usize = n - period;
        let mut repeats: u32 = 1;
        let mut start: usize = last_at;
        proof {
            assert(w.take(wn - p) =~= bytes@.subrange(base as int, start as int));
            assert(copies(w, unit) == 1 + copies(bytes@.subrange(base as int, start as int), unit));
            assert(unit =~= bytes@.subrange(last_at as int, n as int));
        }
        while start >= base + period && same_block(bytes, start - period, last_at, period)
            invariant
                1 <= period <= limit,
                limit <= MAX_PERIOD,
                n == bytes@.len(),
                base + wn == n,
                wn <= WINDOW,
                last_at == n - period,
                base <= start <= last_at,
                p == period,
                unit == bytes@.subrange(last_at as int, n as int),
                unit.len() == p,
                copies(w, unit) == repeats + copies(
                    bytes@.subrange(base as int, start as int),
                    unit,
                ),
                n - start == repeats * p,
                1 <= repeats <= n - start,
            decreases start,
        {
            let ghost front = bytes@.subrange(base as int, start as int);
            proof {
                assert(tail(front, p) =~= bytes@.subrange(start - p, start as int));
                assert(front.take(front.len() - p) =~= bytes@.subrange(base as int, start - p));
                lemma_grow(repeats as int, p);
            }
            start -= period;
            repeats += 1;
        }
        let span: usize = n - start;
        let ghost front = bytes@.subrange(base as int, start as int);
        proof {
            if p <= front.len() {
                assert(tail(front, p) =~= bytes@.subrange(start - p, start as int));
            }
            assert(copies(front, unit) == 0);
        }
        if repeats >= MIN_REPEATS {
            let block = vstd::slice::slice_subrange(bytes, last_at, n);
            let min_span: usize = if distinct_bytes(block) <= LOW_DIVERSITY_BYTES {
                LOW_DIVERSITY_MIN_SPAN
            } else {
                MIN_SPAN
            };
            if span >= min_span {
                return Some(Detection { period, repeats, span });
            }
        }
        period += 1;
    }
    None
}

/// Streaming wrapper: fed the accumulated text of a channel as it grows,
/// reports at most once per response.
#[derive(Debug)]
pub struct TailRepetitionWatch {
    pub scanned_len: usize,
    pub reported: bool,
}

impl Default for TailRepetitionWatch {
    fn default() -> (r: Self)
        ensures
            r.scanned_len == 0,
            !r.reported,
    {
        TailRepetitionWatch { scanned_len: 0, reported: false }
    }
}

impl TailRepetitionWatch {
    /// The watch looks at a text: it has not reported yet, and the text has
    /// grown by a stride since the last look.
    pub open spec fn looks_at(self, bytes: Seq<u8>) -> bool {
        !self.reported && bytes.len() >= self.scanned_len + SCAN_STRIDE
    }

    /// The watch after it was shown a text.
    pub open spec fn after(self, bytes: Seq<u8>) -> TailRepetitionWatch {
        if self.looks_at(bytes) {
            TailRepetitionWatch { scanned_len: bytes.len() as usize, reported: !healthy(bytes) }
        } else {
            self
        }
    }

    /// Observe the accumulated text of one channel. Returns a signal the first
    /// time a degenerate tail is seen, then stays quiet.
    pub fn observe(&mut self, acc: &str, channel: &str) -> (r: Option<DoomLoopSignal>)
        ensures
            *final(self) == old(self).after(acc.spec_bytes()),
            match r {
                Some(signal) => {
                    &&& old(self).looks_at(acc.spec_bytes())
                    &&& exists|found: Detection|
                        {
                            &&& #[trigger] describes(acc.spec_bytes(), found)
                            &&& signal.kind == DoomLoopSignalKind::TailRepetition(found.repeats)
                            &&& signal.raw@ == trigger_label(found.repeats as nat, channel@)
                        }
                    &&& signal.channel@ == channel@
                },
                None => !old(self).looks_at(acc.spec_bytes()) || healthy(acc.spec_bytes()),
            },
    {
        let bytes = acc.as_bytes();
        let len: usize = bytes.len();
        if self.reported || len < self.scanned_len || len - self.scanned_len < SCAN_STRIDE {
            return None;
        }
        self.scanned_len = len;
        match detect(acc) {
            None => None,
            Some(found) => {
                self.reported = true;
                let mut raw = "tail_repetition:".to_owned();
                raw.append(decimal_string(found.repeats as u64).as_str());
                raw.append("@");
                raw.append(channel);
                assert(describes(acc.spec_bytes(), found));
                proof {
                    lemma_described_is_not_healthy(acc.spec_bytes(), found);
                }
                Some(
                    DoomLoopSignal {
                        kind: DoomLoopSignalKind::TailRepetition(found.repeats),
                        channel: channel.to_owned(),
                        raw,
                    },
                )
            },
        }
    }
}

proof fn lemma_described_is_not_healthy(bytes: Seq<u8>, found: Detection)
    requires
        describes(bytes, found),
    ensures
        !healthy(bytes),
{
    let p = found.period as int;
    assert(period_in_range(window(bytes), p) && degenerate(window(bytes), p));
}

/// A detection covers the very end of the text, and there every byte equals
/// the one a period later: the tail really is byte-periodic.
pub proof fn detection_tail_is_periodic(bytes: Seq<u8>, found: Detection)
    requires
        describes(bytes, found),
    ensures
        MIN_SPAN <= found.span <= bytes.len(),
        found.span == found.repeats * found.period,
        forall|i: int|
            bytes.len() - found.span <= i < bytes.len() - found.period ==> #[trigger] bytes[i]
                == bytes[i + found.period],
{
    let w = window(bytes);
    let p = found.period as int;
    lemma_copies(w, tail(w, p));
    assert forall|i: int|
        bytes.len() - found.span <= i < bytes.len() - found.period implies #[trigger] bytes[i]
        == bytes[i + found.period] by {
        let shift = bytes.len() - w.len();
        assert(w[i - shift] == w[i - shift + p]);
        assert(w[i - shift] == bytes[i]);
        assert(w[i - shift + p] == bytes[i + p]);
    }
}

/// A run of low diversity, however it is cut into units, is never reported
/// below the longer bar: a detection that covers less than
/// [`LOW_DIVERSITY_MIN_SPAN`] bytes covers more than [`LOW_DIVERSITY_BYTES`]
/// distinct ones.
pub proof fn short_detection_is_diverse(bytes: Seq<u8>, found: Detection)
    requires
        describes(bytes, found),
        found.span < LOW_DIVERSITY_MIN_SPAN,
    ensures
        tail(bytes, found.span as int).to_set().len() > LOW_DIVERSITY_BYTES,
{
    let w = window(bytes);
    let unit = tail(w, found.period as int);
    lemma_copies(w, unit);
    assert(tail(w, found.span as int) =~= tail(bytes, found.span as int));
}

/// The detection of a text is unique, and a text with one is not healthy.
pub proof fn detection_is_unique(bytes: Seq<u8>, a: Detection, b: Detection)
    requires
        describes(bytes, a),
        describes(bytes, b),
    ensures
        a == b,
        !healthy(bytes),
{
    lemma_described_is_not_healthy(bytes, a);
    if a.period < b.period {
        assert(!degenerate(window(bytes), a.period as int));
    } else if b.period < a.period {
        assert(!degenerate(window(bytes), b.period as int));
    }
}

/// Only the last [`WINDOW`] bytes of a text decide what is detected.
pub proof fn only_the_window_matters(a: Seq<u8>, b: Seq<u8>, found: Detection)
    requires
        a.len() >= WINDOW,
        b.len() >= WINDOW,
        tail(a, WINDOW as int) == tail(b, WINDOW as int),
    ensures
        describes(a, found) <==> describes(b, found),
        healthy(a) <==> healthy(b),
{
    assert(window(a) =~= tail(a, WINDOW as int));
    assert(window(b) =~= tail(b, WINDOW as int));
}

/// `bytes` end in `unit`, written `n` times.
pub open spec fn ends_in(bytes: Seq<u8>, unit: Seq<u8>, n: int) -> bool {
    &&& n * unit.len() <= bytes.len()
    &&& forall|i: int|
        0 <= i < n * unit.len() ==> #[trigger] bytes[bytes.len() - n * unit.len() + i] == unit[i
            % unit.len() as int]
}

/// A text that ends in one unit written over and over is found, whatever the
/// unit and whatever stands before it: a unit of up to 128 bytes, written eight
/// times or more, over 256 bytes, or over 512 where the unit has no more than
/// two distinct ones. What is reported is no longer than that unit.
pub proof fn a_repeated_unit_is_found(bytes: Seq<u8>, unit: Seq<u8>, n: int)
    requires
        1 <= unit.len() <= 128,
        n >= 8,
        ends_in(bytes, unit, n),
        n * unit.len() >= 512 || (n * unit.len() >= 256 && unit.to_set().len() > 2),
    ensures
        !healthy(bytes),
        forall|found: Detection| #[trigger] describes(bytes, found) ==> found.period <= unit.len(),
{
    let w = window(bytes);
    let p = unit.len() as int;
    let span = n * p;
    let shift = bytes.len() - w.len();
    let m = if span <= w.len() {
        n
    } else {
        WINDOW as int / p
    };
    let skipped = n - m;
    assert(m >= 8 && m <= n && m * p <= w.len() && m * p >= 256 && (span >= 512 ==> m * p >= 512))
        by {
        if span > w.len() {
            assert(w.len() == 8192);
            assert(8192 == p * (8192int / p) + 8192int % p && 0 <= 8192int % p < p) by {
                vstd::arithmetic::div_mod::lemma_fundamental_div_mod(8192, p);
                vstd::arithmetic::div_mod::lemma_mod_bound(8192, p);
            }
            assert(p * m == m * p) by (nonlinear_arith);
            assert(m >= 8 && m <= n) by (nonlinear_arith)
                requires
                    m * p > 8192 - p,
                    m * p <= 8192,
                    1 <= p <= 128,
                    n * p > 8192,
            ;
        }
    }
    assert(span == m * p + skipped * p) by (nonlinear_arith)
        requires
            span == n * p,
            skipped == n - m,
    ;
    assert(ends_in(w, unit, m)) by {
        assert forall|i: int| 0 <= i < m * p implies #[trigger] w[w.len() - m * p + i] == unit[i
            % p] by {
            let at = skipped * p + i;
            assert(0 <= skipped * p) by (nonlinear_arith)
                requires
                    0 <= skipped,
                    1 <= p,
            ;
            assert(bytes[bytes.len() - span + at] == unit[at % p]);
            vstd::arithmetic::div_mod::lemma_mod_multiples_vanish(skipped, i, p);
            assert(p * skipped + i == at) by (nonlinear_arith)
                requires
                    at == skipped * p + i,
            ;
            assert(w[w.len() - m * p + i] == bytes[shift + w.len() - m * p + i]);
        }
    }
    lemma_ends_in(w, unit, m);
    assert(tail(w, p) =~= unit);
    let c = copies(w, unit) as int;
    assert(c * p >= m * p) by (nonlinear_arith)
        requires
            c >= m,
            1 <= p,
    ;
    assert(2 * p <= w.len()) by (nonlinear_arith)
        requires
            m >= 8,
            1 <= p,
            m * p <= w.len(),
    ;
    assert(period_in_range(w, p) && degenerate(w, p));
}

proof fn lemma_ends_in(bytes: Seq<u8>, unit: Seq<u8>, n: int)
    requires
        unit.len() > 0,
        n >= 0,
        ends_in(bytes, unit, n),
    ensures
        copies(bytes, unit) >= n,
        n > 0 ==> tail(bytes, unit.len() as int) == unit,
    decreases n,
{
    let p = unit.len() as int;
    if n > 0 {
        let front = bytes.take(bytes.len() - p);
        lemma_grow(n - 1, p);
        assert(0 <= (n - 1) * p) by (nonlinear_arith)
            requires
                n >= 1,
                p >= 1,
        ;
        assert forall|k: int| 0 <= k < p implies tail(bytes, p)[k] == unit[k] by {
            let i = (n - 1) * p + k;
            assert(bytes[bytes.len() - n * p + i] == unit[i % p]);
            assert(p * (n - 1) + k == i) by (nonlinear_arith)
                requires
                    i == (n - 1) * p + k,
            ;
            vstd::arithmetic::div_mod::lemma_mod_multiples_vanish(n - 1, k, p);
            vstd::arithmetic::div_mod::lemma_small_mod(k as nat, p as nat);
        }
        assert(tail(bytes, p) =~= unit);
        assert(ends_in(front, unit, n - 1)) by {
            assert forall|i: int| 0 <= i < (n - 1) * p implies #[trigger] front[front.len() - (n - 1)
                * p + i] == unit[i % p] by {
                assert(bytes[bytes.len() - n * p + i] == unit[i % p]);
            }
        }
        lemma_ends_in(front, unit, n - 1);
    }
}

/// A detection is what it says: a unit of at most 128 bytes that stands at the
/// end of the text `repeats` times, at least eight, and not once more within the
/// last 8192 bytes. It covers 256 bytes, and 512 where the unit has no more than
/// two distinct ones.
pub proof fn a_detection_is_exact(bytes: Seq<u8>, found: Detection)
    requires
        describes(bytes, found),
    ensures
        ({
            let unit = tail(bytes, found.period as int);
            &&& 1 <= found.period <= 128
            &&& found.repeats >= 8
            &&& found.span == found.repeats * found.period
            &&& found.span <= bytes.len() && found.span <= 8192
            &&& found.span >= 256
            &&& found.span >= 512 || unit.to_set().len() > 2
            &&& ends_in(bytes, unit, found.repeats as int)
            &&& (found.repeats + 1) * found.period <= 8192 ==> !ends_in(
                bytes,
                unit,
                found.repeats + 1,
            )
        }),
{
    let w = window(bytes);
    let p = found.period as int;
    let unit = tail(w, p);
    let c = found.repeats as int;
    assert(unit =~= tail(bytes, p));
    lemma_copies(w, unit);
    lemma_ends_in_copies(w, unit);
    assert(ends_in(bytes, unit, c)) by {
        assert forall|i: int| 0 <= i < c * p implies #[trigger] bytes[bytes.len() - c * p + i]
            == unit[i % p] by {
            assert(w[w.len() - c * p + i] == unit[i % p]);
        }
    }
    if (c + 1) * p <= 8192 && ends_in(bytes, unit, c + 1) {
        assert(ends_in(w, unit, c + 1)) by {
            assert forall|i: int| 0 <= i < (c + 1) * p implies #[trigger] w[w.len() - (c + 1) * p
                + i] == unit[i % p] by {
                assert(bytes[bytes.len() - (c + 1) * p + i] == unit[i % p]);
            }
        }
        lemma_ends_in(w, unit, c + 1);
    }
}

proof fn lemma_ends_in_copies(bytes: Seq<u8>, unit: Seq<u8>)
    requires
        unit.len() > 0,
    ensures
        ends_in(bytes, unit, copies(bytes, unit) as int),
    decreases bytes.len(),
{
    let p = unit.len() as int;
    let c = copies(bytes, unit) as int;
    lemma_copies(bytes, unit);
    if c > 0 {
        let front = bytes.take(bytes.len() - p);
        lemma_ends_in_copies(front, unit);
        lemma_grow(c - 1, p);
        assert forall|i: int| 0 <= i < c * p implies #[trigger] bytes[bytes.len() - c * p + i]
            == unit[i % p] by {
            if i < (c - 1) * p {
                assert(front[front.len() - (c - 1) * p + i] == unit[i % p]);
            } else {
                let k = i - (c - 1) * p;
                assert(p * (c - 1) + k == i) by (nonlinear_arith)
                    requires
                        k == i - (c - 1) * p,
                ;
                vstd::arithmetic::div_mod::lemma_mod_multiples_vanish(c - 1, k, p);
                vstd::arithmetic::div_mod::lemma_small_mod(k as nat, p as nat);
                assert(tail(bytes, p)[k] == unit[k]);
            }
        }
    } else {
        assert(c * p == 0) by (nonlinear_arith)
            requires
                c == 0,
        ;
    }
}

/// How many signals a watch gives when it is shown some texts, one after the
/// other.
pub open spec fn reports(watch: TailRepetitionWatch, texts: Seq<Seq<u8>>) -> nat
    decreases texts.len(),
{
    if texts.len() == 0 {
        0
    } else {
        let signalled: nat = if watch.looks_at(texts[0]) && !healthy(texts[0]) {
            1
        } else {
            0
        };
        signalled + reports(watch.after(texts[0]), texts.skip(1))
    }
}

/// A watch reports at most once, whatever it is shown, and not at all once it
/// has reported.
pub proof fn watch_reports_at_most_once(watch: TailRepetitionWatch, texts: Seq<Seq<u8>>)
    ensures
        reports(watch, texts) <= 1,
        watch.reported ==> reports(watch, texts) == 0,
    decreases texts.len(),
{
    if texts.len() > 0 {
        watch_reports_at_most_once(watch.after(texts[0]), texts.skip(1));
    }
}

/// The copies of a unit at the end of some bytes: how far they reach, that
/// they are periodic, and that they hold the bytes of the unit.
proof fn lemma_copies(bytes: Seq<u8>, unit: Seq<u8>)
    requires
        unit.len() > 0,
    ensures
        copies(bytes, unit) * unit.len() <= bytes.len(),
        forall|i: int|
            bytes.len() - copies(bytes, unit) * unit.len() <= i < bytes.len() - unit.len()
                ==> #[trigger] bytes[i] == bytes[i + unit.len()],
        copies(bytes, unit) > 0 ==> tail(
            bytes,
            (copies(bytes, unit) * unit.len()) as int,
        ).to_set() == unit.to_set(),
    decreases bytes.len(),
{
    let p = unit.len() as int;
    let c = copies(bytes, unit) as int;
    if c > 0 {
        let front = bytes.take(bytes.len() - p);
        lemma_copies(front, unit);
        lemma_grow(c - 1, p);
        assert(c * p == (c - 1) * p + p);
        assert forall|i: int| bytes.len() - c * p <= i < bytes.len() - p implies #[trigger] bytes[i]
            == bytes[i + p] by {
            if i < bytes.len() - 2 * p {
                assert(front[i] == front[i + p]);
            } else {
                let k = i - (bytes.len() - 2 * p);
                assert(c > 1) by {
                    if c == 1 {
                        assert(c * p == p) by (nonlinear_arith)
                            requires
                                c == 1,
                        ;
                    }
                }
                assert(tail(front, p)[k] == bytes[i]);
                assert(tail(bytes, p)[k] == bytes[i + p]);
            }
        }
        let covered = tail(bytes, c * p);
        let rest = tail(front, (c - 1) * p);
        assert(covered =~= rest + unit) by {
            assert forall|i: int| 0 <= i < covered.len() implies covered[i] == (rest + unit)[i] by {
                if i >= rest.len() {
                    assert(tail(bytes, p)[i - rest.len()] == covered[i]);
                }
            }
        }
        assert forall|x: u8| covered.to_set().contains(x) <==> unit.to_set().contains(x) by {
            if covered.contains(x) {
                let k = covered.index_of(x);
                if k < rest.len() {
                    assert(rest[k] == x);
                    assert(rest.to_set().contains(x));
                    if c == 1 {
                        assert((c - 1) * p == 0) by (nonlinear_arith)
                            requires
                                c == 1,
                        ;
                    }
                } else {
                    assert(unit[k - rest.len()] == x);
                }
            }
            if unit.contains(x) {
                let k = unit.index_of(x);
                assert(covered[rest.len() + k] == x);
            }
        }
        assert(covered.to_set() =~= unit.to_set());
    } else {
        assert(c * p == 0) by (nonlinear_arith)
            requires
                c == 0,
        ;
    }
}

/// A watch that has not reported looks again once 64 bytes have come since its
/// last look, and until then nothing changes it. Looking notes the length of the
/// text, and reports where the tail is degenerate.
pub proof fn a_watch_looks_at_every_stride(watch: TailRepetitionWatch, bytes: Seq<u8>)
    requires
        bytes.len() <= usize::MAX,
    ensures
        watch.reported || bytes.len() < watch.scanned_len + 64 ==> {
            &&& watch.after(bytes).scanned_len == watch.scanned_len
            &&& watch.after(bytes).reported == watch.reported
            &&& reports(watch, seq![bytes]) == 0
        },
        !watch.reported && bytes.len() >= watch.scanned_len + 64 ==> {
            &&& watch.after(bytes).scanned_len == bytes.len()
            &&& watch.after(bytes).reported == !healthy(bytes)
            &&& reports(watch, seq![bytes]) == if healthy(bytes) {
                0nat
            } else {
                1
            }
        },
{
    assert(reports(watch.after(bytes), seq![bytes].skip(1)) == 0);
}

/// A model that is stuck is reported: a watch that has said nothing yet gives a
/// signal for a text that ends in one unit written over and over, as soon as it
/// looks at it, and then says nothing more.
pub proof fn a_stuck_stream_is_reported(
    watch: TailRepetitionWatch,
    bytes: Seq<u8>,
    unit: Seq<u8>,
    n: int,
    later: Seq<Seq<u8>>,
)
    requires
        bytes.len() <= usize::MAX,
        !watch.reported,
        bytes.len() >= watch.scanned_len + 64,
        1 <= unit.len() <= 128,
        n >= 8,
        ends_in(bytes, unit, n),
        n * unit.len() >= 512 || (n * unit.len() >= 256 && unit.to_set().len() > 2),
    ensures
        reports(watch, seq![bytes] + later) == 1,
        watch.after(bytes).reported,
{
    a_repeated_unit_is_found(bytes, unit, n);
    a_watch_looks_at_every_stride(watch, bytes);
    watch_reports_at_most_once(watch.after(bytes), later);
    assert((seq![bytes] + later).skip(1) =~= later);
    assert((seq![bytes] + later)[0] == bytes);
}

/// The label of a signal names its kind, the count and the channel, and two
/// signals on one channel have the same label only where their counts agree. The
/// channels are called `response` and `thinking`.
pub proof fn a_label_names_count_and_channel(repeats: nat, other: nat, channel: Seq<char>)
    ensures
        trigger_label(repeats, channel) == "tail_repetition:"@ + decimal(repeats) + "@"@ + channel,
        trigger_label(repeats, channel) == trigger_label(other, channel) ==> repeats == other,
        CHANNEL_RESPONSE@ == "response"@,
        CHANNEL_THINKING@ == "thinking"@,
{
    let a = trigger_label(repeats, channel);
    let b = trigger_label(other, channel);
    if a == b {
        let head = "tail_repetition:"@.len() as int;
        let rest = "@"@.len() + channel.len();
        assert(a.len() == head + decimal(repeats).len() + rest);
        assert(b.len() == head + decimal(other).len() + rest);
        assert(decimal(repeats) =~= a.subrange(head, head + decimal(repeats).len()));
        assert(decimal(other) =~= b.subrange(head, head + decimal(other).len()));
        crate::decimal::lemma_decimal(repeats);
        crate::decimal::lemma_decimal(other);
    }
}

// ---- What the functions give ----

/// A text that ends in one unit written over and over is detected, and what is
/// detected is at the end of the text as often as it says.
pub proof fn detection_is_complete_and_exact(text: &str, r: Option<Detection>, unit: Seq<u8>, n: int)
    requires
        call_ensures(detect, (text,), r),
    ensures
        1 <= unit.len() <= 128 && n >= 8 && ends_in(text.spec_bytes(), unit, n) && (n * unit.len()
            >= 512 || (n * unit.len() >= 256 && unit.to_set().len() > 2)) ==> (
        r matches Some(found) && found.period <= unit.len()),
        r matches Some(found) ==> ({
            let bytes = text.spec_bytes();
            let unit = tail(bytes, found.period as int);
            &&& 1 <= found.period <= 128
            &&& found.repeats >= 8
            &&& found.span == found.repeats * found.period
            &&& found.span >= 256
            &&& found.span >= 512 || unit.to_set().len() > 2
            &&& ends_in(bytes, unit, found.repeats as int)
            &&& (found.repeats + 1) * found.period <= 8192 ==> !ends_in(
                bytes,
                unit,
                found.repeats + 1,
            )
        }),
{
    let bytes = text.spec_bytes();
    if 1 <= unit.len() <= 128 && n >= 8 && ends_in(bytes, unit, n) && (n * unit.len() >= 512 || (n
        * unit.len() >= 256 && unit.to_set().len() > 2)) {
        a_repeated_unit_is_found(bytes, unit, n);
    }
    if let Some(found) = r {
        a_detection_is_exact(bytes, found);
    }
}

/// Each byte value of a unit counts once.
pub proof fn distinct_bytes_are_counted(unit: &[u8], r: usize)
    requires
        call_ensures(distinct_bytes, (unit,), r),
    ensures
        r == unit@.to_set().len(),
{
}

/// A watch signals the first degenerate tail that it looks at, with the count
/// and the channel, and says nothing before and after.
pub proof fn a_watch_signals_the_first_loop(
    watch: &mut TailRepetitionWatch,
    acc: &str,
    channel: &str,
    r: Option<DoomLoopSignal>,
    unit: Seq<u8>,
    n: int,
)
    requires
        call_ensures(TailRepetitionWatch::observe, (watch, acc, channel), r),
        acc.spec_bytes().len() <= usize::MAX,
    ensures
        old(watch).reported || acc.spec_bytes().len() < old(watch).scanned_len + 64 ==> {
            &&& r is None
            &&& final(watch).reported == old(watch).reported
            &&& final(watch).scanned_len == old(watch).scanned_len
        },
        !old(watch).reported && acc.spec_bytes().len() >= old(watch).scanned_len + 64 ==> {
            &&& final(watch).scanned_len == acc.spec_bytes().len()
            &&& final(watch).reported == r is Some
            &&& r is Some <==> !healthy(acc.spec_bytes())
        },
        !old(watch).reported && acc.spec_bytes().len() >= old(watch).scanned_len + 64 && 1
            <= unit.len() <= 128 && n >= 8 && ends_in(acc.spec_bytes(), unit, n) && (n * unit.len()
            >= 512 || (n * unit.len() >= 256 && unit.to_set().len() > 2)) ==> r is Some,
        r matches Some(signal) ==> exists|found: Detection|
            {
                &&& #[trigger] describes(acc.spec_bytes(), found)
                &&& signal.kind == DoomLoopSignalKind::TailRepetition(found.repeats)
                &&& signal.channel@ == channel@
                &&& signal.raw@ == "tail_repetition:"@ + decimal(found.repeats as nat) + "@"@
                    + channel@
            },
{
    let bytes = acc.spec_bytes();
    a_watch_looks_at_every_stride(*old(watch), bytes);
    if let Some(signal) = r {
        let found = choose|found: Detection|
            {
                &&& #[trigger] describes(bytes, found)
                &&& signal.kind == DoomLoopSignalKind::TailRepetition(found.repeats)
                &&& signal.raw@ == trigger_label(found.repeats as nat, channel@)
            };
        lemma_described_is_not_healthy(bytes, found);
        assert(describes(bytes, found));
    }
    if 1 <= unit.len() <= 128 && n >= 8 && ends_in(bytes, unit, n) && (n * unit.len() >= 512 || (n
        * unit.len() >= 256 && unit.to_set().len() > 2)) {
        a_repeated_unit_is_found(bytes, unit, n);
    }
}

} // verus!
