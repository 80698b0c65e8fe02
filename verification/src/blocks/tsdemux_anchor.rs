//! Re-anchors demuxed output that runs ahead of the arrival timestamps.
//!
//! A transport stream demuxer that ignores the clock reference places every
//! timestamp relative to the first one that it saw. A caller that was encoding
//! before it could connect delivers a few stale frames first, so every live frame
//! is then stamped that far into the future, for the life of the connection.
//!
//! Healthy output never leads the latest input by more than the few frames that
//! one message carries. The anchor compares the two. When the smallest lead over
//! a window exceeds [`MAX_LEAD`], all of the demuxer's source pads are shifted
//! back by the window's mean lead. One correction is shared by every pad, so audio
//! and video stay aligned.
//!
//! The correction belongs to the caller that it was measured on, and is dropped
//! when the caller changes. Output that sits behind arrival is left alone: a
//! sender that stalls and resumes looks the same from here.

use vstd::prelude::*;

verus! {

/// Smallest lead over one window, in nanoseconds, above which the output is
/// re-anchored.
pub const MAX_LEAD: u64 = 200_000_000;

/// Input time in nanoseconds that one measurement window covers.
pub const WINDOW: u64 = 500_000_000;

/// The time that stands for no time.
pub const NONE: u64 = 0xffff_ffff_ffff_ffff;

/// A time as a signed number.
pub open spec fn signed(time: u64) -> int {
    (time as i64) as int
}

/// A time that may stand for none.
pub open spec fn known(time: u64) -> Option<u64> {
    if time == NONE {
        None
    } else {
        Some(time)
    }
}

fn known_time(time: u64) -> (r: Option<u64>)
    ensures
        r == known(time),
{
    if time == NONE {
        None
    } else {
        Some(time)
    }
}

pub open spec fn fits_i64(n: int) -> bool {
    i64::MIN <= n <= i64::MAX
}

// ---------------------------------------------------------------------------
// Segments
// ---------------------------------------------------------------------------

/// The start, offset and base of a segment that counts time at normal speed.
#[derive(Clone, Copy)]
pub struct SegmentTimes {
    pub start: u64,
    pub offset: u64,
    pub base: u64,
}

/// The last segment seen on one source pad.
pub struct PadSegment {
    /// Start and offset of the segment together, or none when it is unusable.
    pub origin: Option<u64>,
    pub base: u64,
    /// The pad offset that the segment already holds.
    pub embedded_offset: i64,
    /// The offset that the pad carries.
    pub applied_offset: i64,
}

pub struct SegmentInfo {
    pub origin: Option<u64>,
    pub base: u64,
    pub embedded_offset: int,
    pub applied_offset: int,
}

impl View for PadSegment {
    type V = SegmentInfo;

    open spec fn view(&self) -> SegmentInfo {
        SegmentInfo {
            origin: self.origin,
            base: self.base,
            embedded_offset: self.embedded_offset as int,
            applied_offset: self.applied_offset as int,
        }
    }
}

/// A pad on which no segment was seen.
pub open spec fn unseen() -> SegmentInfo {
    SegmentInfo { origin: None, base: 0, embedded_offset: 0, applied_offset: 0 }
}

impl SegmentInfo {
    /// The segment after another one was seen on the pad. An offset is folded into
    /// a segment before it is seen, so the new one holds what the pad carries.
    pub open spec fn recorded(self, usable: Option<SegmentTimes>) -> SegmentInfo {
        match usable {
            Some(times) => SegmentInfo {
                origin: known((times.start + times.offset) as u64),
                base: times.base,
                embedded_offset: self.applied_offset,
                applied_offset: self.applied_offset,
            },
            None => SegmentInfo { origin: None, ..self },
        }
    }

    /// The running time of a timestamp with the pad's offset.
    pub open spec fn running_time(self, ts: u64) -> Option<int> {
        match self.origin {
            Some(origin) => Some(
                signed(ts) - signed(origin) + signed(self.base) - self.embedded_offset
                    + self.applied_offset,
            ),
            None => None,
        }
    }

    pub open spec fn shifted_to(self, offset: int) -> SegmentInfo {
        SegmentInfo { applied_offset: offset, ..self }
    }
}

impl PadSegment {
    pub fn new() -> (r: PadSegment)
        ensures
            r@ == unseen(),
    {
        PadSegment { origin: None, base: 0, embedded_offset: 0, applied_offset: 0 }
    }

    /// Notes a segment seen on the pad: its times, where it counts time at normal
    /// speed.
    pub fn record(&mut self, usable: Option<SegmentTimes>)
        requires
            usable matches Some(times) ==> times.start + times.offset <= u64::MAX,
        ensures
            final(self)@ == old(self)@.recorded(usable),
    {
        match usable {
            Some(times) => {
                self.base = times.base;
                self.embedded_offset = self.applied_offset;
                self.origin = known_time(times.start + times.offset);
            },
            None => {
                self.origin = None;
            },
        }
    }

    /// The running time of a timestamp with the pad's offset, ignoring clipping.
    pub fn running_time(&self, ts: u64) -> (r: Option<i64>)
        requires
            self@.running_time(ts) matches Some(t) ==> fits_i64(t),
        ensures
            r is Some == self@.running_time(ts) is Some,
            r matches Some(t) ==> self@.running_time(ts) == Some(t as int),
    {
        match self.wide_time(ts) {
            Some(t) => Some(t as i64),
            None => None,
        }
    }

    fn wide_time(&self, ts: u64) -> (r: Option<i128>)
        ensures
            r is Some == self@.running_time(ts) is Some,
            r matches Some(t) ==> self@.running_time(ts) == Some(t as int) && -0x4_0000_0000_0000_0000
                <= t <= 0x4_0000_0000_0000_0000,
    {
        match self.origin {
            Some(origin) => {
                let own: i128 = (ts as i64) as i128;
                let from: i128 = (origin as i64) as i128;
                let base: i128 = (self.base as i64) as i128;
                Some(own - from + base - self.embedded_offset as i128 + self.applied_offset as i128)
            },
            None => None,
        }
    }
}

// ---------------------------------------------------------------------------
// The anchor
// ---------------------------------------------------------------------------

/// The leads measured in one window.
#[derive(Clone, Copy)]
pub struct LeadWindow {
    /// The input running time at which the window started.
    pub start: u64,
    pub min_lead: i64,
    pub lead_sum: i64,
    pub samples: i64,
}

pub struct WindowInfo {
    pub start: u64,
    pub min_lead: int,
    pub lead_sum: int,
    pub samples: int,
}

impl View for LeadWindow {
    type V = WindowInfo;

    open spec fn view(&self) -> WindowInfo {
        WindowInfo {
            start: self.start,
            min_lead: self.min_lead as int,
            lead_sum: self.lead_sum as int,
            samples: self.samples as int,
        }
    }
}

impl WindowInfo {
    /// There is a measurement, and none is below the smallest.
    pub open spec fn valid(self) -> bool {
        self.samples >= 1 && self.lead_sum >= self.samples * self.min_lead
    }

    pub open spec fn with(self, lead: int) -> WindowInfo {
        WindowInfo {
            start: self.start,
            min_lead: if lead < self.min_lead {
                lead
            } else {
                self.min_lead
            },
            lead_sum: self.lead_sum + lead,
            samples: self.samples + 1,
        }
    }

    pub open spec fn mean(self) -> int {
        self.lead_sum / self.samples
    }
}

pub open spec fn first_lead(start: u64, lead: int) -> WindowInfo {
    WindowInfo { start, min_lead: lead, lead_sum: lead, samples: 1 }
}

/// Watches one demuxer and the element that feeds it.
pub struct TsDemuxAnchor {
    pub instance_id: String,
    /// Running time of the most recent input buffer.
    pub last_input: Option<u64>,
    pub window: Option<LeadWindow>,
    /// The offset that every source pad of the demuxer should carry.
    pub correction: i64,
}

pub struct AnchorInfo {
    pub instance_id: Seq<char>,
    pub last_input: Option<u64>,
    pub window: Option<WindowInfo>,
    pub correction: int,
}

impl View for TsDemuxAnchor {
    type V = AnchorInfo;

    open spec fn view(&self) -> AnchorInfo {
        AnchorInfo {
            instance_id: self.instance_id@,
            last_input: self.last_input,
            window: match self.window {
                Some(w) => Some(w@),
                None => None,
            },
            correction: self.correction as int,
        }
    }
}

/// What a buffer leaving the demuxer leads to.
pub struct BufferStep {
    pub anchor: AnchorInfo,
    pub segment: SegmentInfo,
    /// By how much the output was found to run ahead.
    pub removed: Option<int>,
}

/// A window with one more lead in it, if it goes on, and the lead to take away
/// if it is over and all of it was too far ahead.
pub open spec fn measured(window: Option<WindowInfo>, input: u64, lead: int) -> (
    Option<WindowInfo>,
    Option<int>,
) {
    match window {
        Some(w) => if input < w.start {
            (Some(first_lead(input, lead)), None)
        } else if input - w.start < WINDOW {
            (Some(w.with(lead)), None)
        } else if w.with(lead).min_lead <= MAX_LEAD {
            (None, None)
        } else {
            (None, Some(w.with(lead).mean()))
        },
        None => (Some(first_lead(input, lead)), None),
    }
}

impl AnchorInfo {
    /// Nothing is measured backwards: the output is only ever shifted earlier.
    pub open spec fn valid(self) -> bool {
        self.correction <= 0 && (self.window matches Some(w) ==> w.valid())
    }

    /// The anchor once the caller has changed.
    pub open spec fn reset(self) -> AnchorInfo {
        AnchorInfo { correction: 0, window: None, ..self }
    }

    /// How far a buffer's timestamp on a pad leads the input.
    pub open spec fn lead(self, segment: SegmentInfo, ts: u64) -> Option<int> {
        match (segment.shifted_to(self.correction).running_time(ts), self.last_input) {
            (Some(time), Some(input)) => Some(time - signed(input)),
            _ => None,
        }
    }

    /// What a buffer leaving the demuxer on a pad leads to.
    pub open spec fn output(self, segment: SegmentInfo, ts: u64) -> BufferStep {
        let shifted = segment.shifted_to(self.correction);
        match self.lead(segment, ts) {
            Some(lead) => {
                let (window, removed) = measured(self.window, self.last_input->0, lead);
                match removed {
                    Some(mean) => BufferStep {
                        anchor: AnchorInfo { window, correction: self.correction - mean, ..self },
                        segment: shifted.shifted_to(self.correction - mean),
                        removed,
                    },
                    None => BufferStep {
                        anchor: AnchorInfo { window, ..self },
                        segment: shifted,
                        removed,
                    },
                }
            },
            None => BufferStep { anchor: self, segment: shifted, removed: None },
        }
    }

    /// Every number that a buffer leads to is a 64-bit one.
    pub open spec fn output_fits(self, segment: SegmentInfo, ts: u64) -> bool {
        &&& segment.shifted_to(self.correction).running_time(ts) matches Some(time) ==> fits_i64(
            time,
        )
        &&& self.lead(segment, ts) matches Some(lead) ==> {
            &&& fits_i64(lead)
            &&& self.window matches Some(w) ==> self.last_input->0 >= w.start ==> fits_i64(
                w.lead_sum + lead,
            ) && fits_i64(w.samples + 1)
            &&& fits_i64(self.output(segment, ts).anchor.correction)
        }
    }
}

/// What is to be done about a buffer leaving the demuxer.
pub struct OutputStep {
    /// The offset to give to the pad before the buffer is measured.
    pub offset: Option<i64>,
    /// What was measured, where it leads to a new offset for the pad.
    pub reanchored: Option<Reanchoring>,
}

pub struct Reanchoring {
    /// By how much the output ran ahead.
    pub mean_lead: i64,
    /// The offset to give to the pad.
    pub offset: i64,
}

impl TsDemuxAnchor {
    pub fn new(instance_id: &str) -> (r: TsDemuxAnchor)
        ensures
            r@ == (AnchorInfo {
                instance_id: instance_id@,
                last_input: None,
                window: None,
                correction: 0,
            }),
            r@.valid(),
    {
        TsDemuxAnchor {
            instance_id: instance_id.to_owned(),
            last_input: None,
            window: None,
            correction: 0,
        }
    }

    /// Notes the timestamp of a buffer entering the demuxer. It is a running time
    /// already.
    pub fn watch_input(&mut self, pts: u64)
        ensures
            final(self)@ == (AnchorInfo { last_input: known(pts), ..old(self)@ }),
    {
        self.last_input = known_time(pts);
    }

    /// Drops the correction and the window in progress, as the caller has changed.
    pub fn watch_caller(&mut self)
        ensures
            final(self)@ == old(self)@.reset(),
    {
        self.correction = 0;
        self.window = None;
    }

    /// What is kept for a pad that the demuxer adds: only source pads are watched.
    pub fn watch_demuxer(&self, is_source: bool) -> (r: Option<PadSegment>)
        ensures
            r is Some == is_source,
            r matches Some(segment) ==> segment@ == unseen(),
    {
        if is_source {
            Some(PadSegment::new())
        } else {
            None
        }
    }

    fn shifted_time(&self, segment: &PadSegment, ts: u64) -> (r: Option<i128>)
        ensures
            r is Some == segment@.running_time(ts) is Some,
            r matches Some(t) ==> segment@.shifted_to(self@.correction).running_time(ts) == Some(
                t as int,
            ) && -0x5_0000_0000_0000_0000 <= t <= 0x5_0000_0000_0000_0000,
    {
        match segment.wide_time(ts) {
            Some(t) => Some(t - segment.applied_offset as i128 + self.correction as i128),
            None => None,
        }
    }

    /// Whether every number that a buffer leads to is a 64-bit one.
    pub fn can_measure(&self, segment: &PadSegment, ts: u64) -> (r: bool)
        requires
            self@.valid(),
        ensures
            r == self@.output_fits(segment@, ts),
    {
        let time = match self.shifted_time(segment, ts) {
            Some(time) => time,
            None => {
                return true;
            },
        };
        if time < i64::MIN as i128 || time > i64::MAX as i128 {
            return false;
        }
        let input: u64 = match self.last_input {
            Some(input) => input,
            None => {
                return true;
            },
        };
        let lead: i128 = time - (input as i64) as i128;
        if lead < i64::MIN as i128 || lead > i64::MAX as i128 {
            return false;
        }
        let w = match self.window {
            Some(w) => w,
            None => {
                return true;
            },
        };
        if input < w.start {
            return true;
        }
        let sum: i128 = w.lead_sum as i128 + lead;
        let samples: i128 = w.samples as i128 + 1;
        if sum < i64::MIN as i128 || sum > i64::MAX as i128 || samples > i64::MAX as i128 {
            return false;
        }
        if input - w.start < WINDOW || lead <= MAX_LEAD as i128 || w.min_lead <= MAX_LEAD as i64 {
            return true;
        }
        proof {
            lemma_window_grows(w@, lead as int);
            lemma_mean(w@.with(lead as int));
        }
        let mean: i128 = sum / samples;
        self.correction as i128 - mean >= i64::MIN as i128
    }

    /// Measures a buffer leaving the demuxer on a pad, and shifts the pad where it
    /// does not carry the offset that it should.
    pub fn on_output_buffer(&mut self, segment: &mut PadSegment, ts: u64) -> (r: OutputStep)
        requires
            old(self)@.valid(),
            old(self)@.output_fits(old(segment)@, ts),
        ensures
            final(self)@.valid(),
            final(self)@ == old(self)@.output(old(segment)@, ts).anchor,
            final(segment)@ == old(self)@.output(old(segment)@, ts).segment,
            r.offset == if old(segment).applied_offset != old(self).correction {
                Some(old(self).correction)
            } else {
                None
            },
            r.reanchored is Some == old(self)@.output(old(segment)@, ts).removed is Some,
            r.reanchored matches Some(found) ==> found.offset == final(self)@.correction
                && old(self)@.output(old(segment)@, ts).removed == Some(found.mean_lead as int),
    {
        let mut offset: Option<i64> = None;
        if segment.applied_offset != self.correction {
            segment.applied_offset = self.correction;
            offset = Some(self.correction);
        }
        assert(segment@ == old(segment)@.shifted_to(self@.correction));
        let time: i64 = match segment.running_time(ts) {
            Some(time) => time,
            None => {
                return OutputStep { offset, reanchored: None };
            },
        };
        let input: u64 = match self.last_input {
            Some(input) => input,
            None => {
                return OutputStep { offset, reanchored: None };
            },
        };
        let wide: i128 = time as i128 - (input as i64) as i128;
        let lead: i64 = wide as i64;
        assert(old(self)@.lead(old(segment)@, ts) == Some(lead as int));
        let mut finished: Option<LeadWindow> = None;
        match self.window {
            Some(w) => {
                if input < w.start {
                    self.window = Some(
                        LeadWindow { start: input, min_lead: lead, lead_sum: lead, samples: 1 },
                    );
                } else {
                    let next = LeadWindow {
                        start: w.start,
                        min_lead: if lead < w.min_lead {
                            lead
                        } else {
                            w.min_lead
                        },
                        lead_sum: w.lead_sum + lead,
                        samples: w.samples + 1,
                    };
                    proof {
                        lemma_window_grows(w@, lead as int);
                        assert(next@ == w@.with(lead as int));
                    }
                    if input - w.start < WINDOW {
                        self.window = Some(next);
                    } else {
                        self.window = None;
                        finished = Some(next);
                    }
                }
            },
            None => {
                self.window = Some(
                    LeadWindow { start: input, min_lead: lead, lead_sum: lead, samples: 1 },
                );
            },
        }
        match finished {
            Some(w) => {
                if w.min_lead <= MAX_LEAD as i64 {
                    return OutputStep { offset, reanchored: None };
                }
                proof {
                    lemma_mean(w@);
                }
                let mean: i64 = w.lead_sum / w.samples;
                let correction: i64 = self.correction - mean;
                self.correction = correction;
                segment.applied_offset = correction;
                OutputStep {
                    offset,
                    reanchored: Some(Reanchoring { mean_lead: mean, offset: correction }),
                }
            },
            None => OutputStep { offset, reanchored: None },
        }
    }
}

// ---------------------------------------------------------------------------
// Laws
// ---------------------------------------------------------------------------

proof fn lemma_window_grows(w: WindowInfo, lead: int)
    requires
        w.valid(),
    ensures
        w.with(lead).valid(),
{
    let next = w.with(lead);
    assert(w.lead_sum + lead >= (w.samples + 1) * next.min_lead) by (nonlinear_arith)
        requires
            w.samples >= 1,
            w.lead_sum >= w.samples * w.min_lead,
            next.min_lead <= w.min_lead,
            next.min_lead <= lead,
    ;
}

proof fn lemma_mean(w: WindowInfo)
    requires
        w.valid(),
        w.min_lead > MAX_LEAD,
    ensures
        w.min_lead <= w.mean() <= w.lead_sum,
        w.lead_sum > 0,
{
    let (sum, n, least) = (w.lead_sum, w.samples, w.min_lead);
    assert(sum >= least && least <= sum / n <= sum) by (nonlinear_arith)
        requires
            n >= 1,
            least > 0,
            sum >= n * least,
    ;
}

/// A pad carries the shared correction once a buffer has left on it.
pub proof fn pads_share_the_correction(anchor: AnchorInfo, segment: SegmentInfo, ts: u64)
    ensures
        anchor.output(segment, ts).segment.applied_offset == anchor.output(
            segment,
            ts,
        ).anchor.correction,
{
}

/// Output is shifted only where it ran further ahead than [`MAX_LEAD`], and then
/// it is shifted back by more than that.
pub proof fn only_output_ahead_is_shifted(anchor: AnchorInfo, segment: SegmentInfo, ts: u64)
    requires
        anchor.valid(),
    ensures
        anchor.output(segment, ts).anchor.valid(),
        anchor.output(segment, ts).anchor.correction <= anchor.correction,
        anchor.output(segment, ts).anchor.correction != anchor.correction ==> {
            &&& anchor.lead(segment, ts) matches Some(lead)
            &&& lead > MAX_LEAD
            &&& anchor.output(segment, ts).anchor.correction < anchor.correction - MAX_LEAD
        },
{
    if let Some(lead) = anchor.lead(segment, ts) {
        if let Some(w) = anchor.window {
            lemma_window_grows(w, lead);
            if w.with(lead).min_lead > MAX_LEAD {
                lemma_mean(w.with(lead));
            }
        }
    }
}

/// Output that sits behind arrival is left alone, whatever the correction.
pub proof fn output_behind_arrival_keeps_the_offset(
    anchor: AnchorInfo,
    segment: SegmentInfo,
    ts: u64,
)
    requires
        anchor.lead(segment, ts) matches Some(lead) && lead <= 0,
    ensures
        anchor.output(segment, ts).anchor.correction == anchor.correction,
{
}

/// After a change of caller the next buffer leaves its pad unshifted.
pub proof fn caller_change_drops_the_offset(anchor: AnchorInfo, segment: SegmentInfo, ts: u64)
    ensures
        anchor.reset().output(segment, ts).segment.applied_offset == 0,
        anchor.reset().output(segment, ts).anchor.correction == 0,
{
}

/// A window all of whose leads are the same.
pub open spec fn steady(window: Option<WindowInfo>, lead: int) -> bool {
    window matches Some(w) ==> w.samples >= 1 && w.min_lead == lead && w.lead_sum == w.samples
        * lead
}

/// Output that runs ahead by one and the same lead is shifted back by that lead
/// at the end of the window, and not before.
pub proof fn steady_lead_is_removed(
    anchor: AnchorInfo,
    segment: SegmentInfo,
    ts: u64,
    lead: int,
)
    requires
        anchor.lead(segment, ts) == Some(lead),
        lead > MAX_LEAD,
        steady(anchor.window, lead),
    ensures
        ({
            let after = anchor.output(segment, ts);
            let over = anchor.window matches Some(w) && anchor.last_input->0 >= w.start
                && anchor.last_input->0 - w.start >= WINDOW;
            &&& steady(after.anchor.window, lead)
            &&& after.anchor.correction == if over {
                anchor.correction - lead
            } else {
                anchor.correction
            }
        }),
{
    assert(1 * lead == lead);
    if let Some(w) = anchor.window {
        let n = w.samples;
        assert(n * lead + lead == (n + 1) * lead) by (nonlinear_arith);
        assert(((n + 1) * lead) / (n + 1) == lead) by (nonlinear_arith)
            requires
                n >= 1,
        ;
    }
}

/// A buffer entering the demuxer, and one that then leaves it on a pad.
pub struct Passage {
    pub input: u64,
    pub segment: SegmentInfo,
    pub ts: u64,
}

impl AnchorInfo {
    pub open spec fn entered(self, input: u64) -> AnchorInfo {
        AnchorInfo { last_input: Some(input), ..self }
    }

    /// What a passage leads to.
    pub open spec fn passed(self, p: Passage) -> BufferStep {
        self.entered(p.input).output(p.segment, p.ts)
    }

    /// The anchor after some passages without a change of caller.
    pub open spec fn after_all(self, passages: Seq<Passage>) -> AnchorInfo
        decreases passages.len(),
    {
        if passages.len() == 0 {
            self
        } else {
            self.after_all(passages.drop_last()).passed(passages.last()).anchor
        }
    }

    /// The passages fill a window: the input moves on from the first of them,
    /// and it reaches the length of a window with the last and not before.
    pub open spec fn fills_window(self, passages: Seq<Passage>) -> bool {
        &&& self.window is None
        &&& passages.len() >= 2
        &&& passages.last().input - passages[0].input >= WINDOW
        &&& forall|k: int|
            0 <= k < passages.len() - 1 ==> 0 <= (#[trigger] passages[k]).input - passages[0].input
                < WINDOW
    }
}

/// Between two changes of caller the correction never grows, and it is never
/// positive.
pub proof fn correction_only_falls(anchor: AnchorInfo, passages: Seq<Passage>)
    requires
        anchor.valid(),
    ensures
        anchor.after_all(passages).valid(),
        anchor.after_all(passages).correction <= anchor.correction <= 0,
    decreases passages.len(),
{
    if passages.len() > 0 {
        correction_only_falls(anchor, passages.drop_last());
        let before = anchor.after_all(passages.drop_last());
        let p = passages.last();
        only_output_ahead_is_shifted(before.entered(p.input), p.segment, p.ts);
    }
}

/// A window that goes on holds every lead that was measured since it began.
proof fn lemma_window_so_far(anchor: AnchorInfo, passages: Seq<Passage>, lead: int, n: int)
    requires
        anchor.fills_window(passages),
        forall|k: int|
            0 <= k < passages.len() ==> anchor.entered((#[trigger] passages[k]).input).lead(
                passages[k].segment,
                passages[k].ts,
            ) == Some(lead),
        1 <= n < passages.len(),
    ensures
        anchor.after_all(passages.take(n)) == (AnchorInfo {
            last_input: Some(passages[n - 1].input),
            window: Some(
                WindowInfo {
                    start: passages[0].input,
                    min_lead: lead,
                    lead_sum: n * lead,
                    samples: n,
                },
            ),
            ..anchor
        }),
    decreases n,
{
    let so_far = passages.take(n);
    assert(so_far.drop_last() =~= passages.take(n - 1));
    assert(so_far.last() == passages[n - 1]);
    if n == 1 {
        assert(anchor.after_all(passages.take(0)) == anchor);
        assert(1 * lead == lead);
    } else {
        lemma_window_so_far(anchor, passages, lead, n - 1);
        assert((n - 1) * lead + lead == n * lead) by (nonlinear_arith);
        let before = anchor.after_all(passages.take(n - 1));
        let p = passages[n - 1];
        assert(before.entered(p.input).lead(p.segment, p.ts) == Some(lead));
    }
}

/// Where every buffer of a window runs ahead of the input by one and the same
/// lead, the output is shifted back by that lead when the window closes if it
/// is above [`MAX_LEAD`], and is left alone if it is not; until then nothing
/// changes. The pad that the window closes on carries the new offset.
pub proof fn steady_window_is_removed(anchor: AnchorInfo, passages: Seq<Passage>, lead: int)
    requires
        anchor.fills_window(passages),
        forall|k: int|
            0 <= k < passages.len() ==> anchor.entered((#[trigger] passages[k]).input).lead(
                passages[k].segment,
                passages[k].ts,
            ) == Some(lead),
    ensures
        forall|n: int|
            0 <= n < passages.len() ==> (#[trigger] anchor.after_all(passages.take(n))).correction
                == anchor.correction,
        ({
            let closed = anchor.after_all(passages.drop_last()).passed(passages.last());
            let offset = if lead > MAX_LEAD {
                anchor.correction - lead
            } else {
                anchor.correction
            };
            &&& anchor.after_all(passages) == closed.anchor
            &&& closed.anchor.window is None
            &&& closed.anchor.correction == offset
            &&& closed.segment.applied_offset == offset
        }),
{
    assert forall|n: int| 0 <= n < passages.len() implies (#[trigger] anchor.after_all(
        passages.take(n),
    )).correction == anchor.correction by {
        if n > 0 {
            lemma_window_so_far(anchor, passages, lead, n);
        }
    }
    let n = passages.len() - 1;
    lemma_window_so_far(anchor, passages, lead, n);
    assert(passages.drop_last() =~= passages.take(n));
    let before = anchor.after_all(passages.take(n));
    let p = passages.last();
    assert(p == passages[n]);
    assert(before.entered(p.input).lead(p.segment, p.ts) == Some(lead));
    assert(n * lead + lead == (n + 1) * lead) by (nonlinear_arith);
    assert(((n + 1) * lead) / (n + 1) == lead) by (nonlinear_arith)
        requires
            n >= 1,
    ;
}

} // verus!
