//! Laws on what codec discovery reports, and on how output that runs ahead is
//! measured and shifted back.

use crate::blocks::codec_report;
use crate::blocks::codec_report::{AttemptInfo, PadTemplate, ReportInfo};
use crate::blocks::tsdemux_anchor;
use crate::blocks::tsdemux_anchor::{AnchorInfo, SegmentInfo, SegmentTimes, WindowInfo};
use crate::sequences;
use crate::text;
use vstd::prelude::*;

verus! {

// ---------------------------------------------------------------------------
// Codecs
// ---------------------------------------------------------------------------

/// Encoded video counts as a codec, and raw video does not.
pub proof fn encoded_video_is_a_codec(name: Seq<char>)
    ensures
        codec_report::is_video_codec("video/"@ + name) <==> "video/"@ + name != "video/x-raw"@,
        !text::has_prefix(name, "video/"@) ==> !codec_report::is_video_codec(name),
{
    let whole = "video/"@ + name;
    assert(whole.subrange(0, "video/"@.len() as int) =~= "video/"@);
}

/// Five codecs have names that operators use; others go by their media type.
pub proof fn codecs_have_names(media_type: Seq<char>)
    ensures
        codec_report::label_of("video/x-h264"@) == "H.264"@,
        codec_report::label_of("video/x-h265"@) == "H.265"@,
        codec_report::label_of("video/x-vp8"@) == "VP8"@,
        codec_report::label_of("video/x-vp9"@) == "VP9"@,
        codec_report::label_of("video/x-av1"@) == "AV1"@,
        media_type != "video/x-h264"@ && media_type != "video/x-h265"@ && media_type
            != "video/x-vp8"@ && media_type != "video/x-vp9"@ && media_type != "video/x-av1"@
            ==> codec_report::label_of(media_type) == media_type,
{
    reveal_strlit("video/x-h264");
    reveal_strlit("video/x-h265");
    reveal_strlit("video/x-vp8");
    reveal_strlit("video/x-vp9");
    reveal_strlit("video/x-av1");
    assert("video/x-h264"@[11] == '4' && "video/x-h265"@[11] == '5');
    assert("video/x-vp8"@[10] == '8' && "video/x-vp9"@[10] == '9' && "video/x-av1"@[10] == '1');
    assert("video/x-vp8"@.len() == 11 && "video/x-vp9"@.len() == 11 && "video/x-av1"@.len() == 11);
    assert("video/x-h264"@.len() == 12 && "video/x-h265"@.len() == 12);
}

/// A codec that was not tried has no encoder; one that was tried and did not get
/// through was dropped because of its encoder, which is named where it is known.
pub proof fn missing_codecs_are_told_with_the_reason(
    codec: Seq<char>,
    encoder: Seq<char>,
    attempt: AttemptInfo,
)
    ensures
        codec_report::why_missing(codec, None) == Some(
            codec_report::label_of(codec) + " was not offered: no encoder for it is installed"@,
        ),
        codec_report::why_missing(codec, Some(attempt)) is None <==> attempt.negotiated,
        codec_report::why_missing(
            codec,
            Some(AttemptInfo { encoder: Some(encoder), negotiated: false }),
        ) == Some(
            codec_report::label_of(codec) + " was dropped from the offer: "@ + encoder
                + " failed codec discovery"@,
        ),
        codec_report::why_missing(codec, Some(AttemptInfo { encoder: None, negotiated: false }))
            == Some(
            codec_report::label_of(codec) + " was dropped from the offer: "@ + "its encoder"@
                + " failed codec discovery"@,
        ),
{
}

/// A report starts with nothing known, and discovery is final fifteen seconds after
/// the last attempt.
pub proof fn reports_start_empty(block_id: Seq<char>, settle_after: u64)
    ensures
        codec_report::SETTLE_AFTER == 15_000_000_000,
        ({
            let report = codec_report::fresh(block_id, settle_after);
            &&& report.block_id == block_id
            &&& report.settle_after == settle_after
            &&& report.requested.len() == 0
            &&& report.attempts.len() == 0
            &&& report.last_attempt_at is None
            &&& report.verdict is None
            &&& !report.decided
        }),
{
}

/// Discovery has settled once the time that is set has gone by since the last
/// attempt, and not before there was one.
pub proof fn discovery_settles_after_the_last_attempt(report: ReportInfo, last: u64, now: u64)
    ensures
        report.last_attempt_at is None ==> !report.settled(now),
        report.last_attempt_at == Some(last) && now >= last ==> (report.settled(now) <==> now
            >= last + report.settle_after),
        report.last_attempt_at == Some(last) && now < last ==> (report.settled(now) <==>
            report.settle_after == 0),
{
}

/// What is found out of a codec is kept: its encoder and whether it got through do
/// not undo each other, in whichever order they come, and other codecs stay as
/// they are.
pub proof fn findings_are_kept(
    report: ReportInfo,
    codec: Seq<char>,
    other: Seq<char>,
    encoder: Seq<char>,
    now: u64,
)
    requires
        !report.decided,
    ensures
        ({
            let before = codec_report::attempt_of(report.attempts, codec);
            let named = report.encoder_recorded(codec, encoder);
            let tried = report.probed(codec, now);
            let through = report.codec_negotiated(codec);
            &&& text::lookup(named.attempts, codec) == Some(
                AttemptInfo { encoder: Some(encoder), negotiated: before.negotiated },
            )
            &&& text::lookup(tried.attempts, codec) == Some(before)
            &&& tried.last_attempt_at == Some(now)
            &&& named.last_attempt_at == report.last_attempt_at
            &&& text::lookup(report.attempts, codec) is Some ==> text::lookup(
                through.attempts,
                codec,
            ) == Some(AttemptInfo { encoder: before.encoder, negotiated: true })
            &&& text::lookup(report.attempts, codec) is None ==> through == report
            &&& other != codec ==> text::lookup(named.attempts, other) == text::lookup(
                report.attempts,
                other,
            )
            &&& other != codec ==> text::lookup(tried.attempts, other) == text::lookup(
                report.attempts,
                other,
            )
            &&& other != codec ==> text::lookup(through.attempts, other) == text::lookup(
                report.attempts,
                other,
            )
            &&& named.requested == report.requested
            &&& tried.requested == report.requested
            &&& through.requested == report.requested
        }),
        text::lookup(report.attempts, codec) is None ==> codec_report::attempt_of(
            report.attempts,
            codec,
        ) == (AttemptInfo { encoder: None, negotiated: false }),
{
    let before = codec_report::attempt_of(report.attempts, codec);
    codec_report::recorded_attempt_is_found(
        report.attempts,
        codec,
        AttemptInfo { encoder: Some(encoder), ..before },
        other,
    );
    codec_report::recorded_attempt_is_found(report.attempts, codec, before, other);
    codec_report::recorded_attempt_is_found(
        report.attempts,
        codec,
        AttemptInfo { negotiated: true, ..before },
        other,
    );
}

/// Every codec that is asked for and missing is told of, with its reason, and
/// nothing else is.
pub proof fn missing_codecs_are_told(report: ReportInfo, k: int, reason: Seq<char>)
    ensures
        0 <= k < report.requested.len() && codec_report::why_missing(
            report.requested[k],
            text::lookup(report.attempts, report.requested[k]),
        ) == Some(reason) ==> report.missing().contains(reason),
        report.missing().contains(reason) ==> exists|j: int|
            0 <= j < report.requested.len() && codec_report::why_missing(
                #[trigger] report.requested[j],
                text::lookup(report.attempts, report.requested[j]),
            ) == Some(reason),
        report.missing().len() == 0 <==> report.judgement() is None,
        report.missing().len() == 1 ==> report.judgement() == Some(report.missing()[0]),
        report.missing().len() == 2 ==> report.judgement() == Some(
            report.missing()[0] + "; "@ + report.missing()[1],
        ),
{
    let all = report.requested;
    let pick = |codec: Seq<char>|
        codec_report::why_missing(codec, text::lookup(report.attempts, codec));
    if 0 <= k < all.len() && pick(all[k]) == Some(reason) {
        sequences::lemma_filter_map_holds(all, pick, k, all.len() as int);
        assert(all.take(all.len() as int) =~= all);
    }
    if report.missing().contains(reason) {
        all.lemma_filter_map_contains(pick, reason);
        let codec = choose|codec: Seq<char>| all.contains(codec) && pick(codec) == Some(reason);
        let j = choose|j: int| 0 <= j < all.len() && all[j] == codec;
        assert(pick(all[j]) == Some(reason));
    }
    reveal_with_fuel(text::join, 3);
}

/// A verdict is what is said once discovery has settled, and is given from then on.
pub proof fn settled_discovery_is_judged(report: ReportInfo, now: u64)
    requires
        !report.decided,
    ensures
        report.settled(now) ==> report.answer(now) == report.judgement() && report.judged(
            now,
        ).decided && report.judged(now).verdict == report.judgement(),
        !report.settled(now) ==> report.answer(now) is None && report.judged(now) == report,
{
}

/// The filter that is spliced in for a codec is named after the block and the codec,
/// with dashes for slashes.
pub proof fn filters_are_named_after_their_codec(block_id: Seq<char>, codec: Seq<char>, i: int)
    ensures
        ({
            let name = codec_report::filter_name(block_id, codec);
            let head = block_id + ":codec-probe:"@;
            &&& text::has_prefix(name, head)
            &&& name.len() == head.len() + codec.len()
            &&& 0 <= i < codec.len() ==> name[head.len() + i] == (if codec[i] == '/' {
                '-'
            } else {
                codec[i]
            })
        }),
{
    let name = codec_report::filter_name(block_id, codec);
    let head = block_id + ":codec-probe:"@;
    assert(name.subrange(0, head.len() as int) =~= head);
}

proof fn lemma_first_source(templates: Seq<PadTemplate>, k: int, i: int)
    requires
        0 <= i <= k < templates.len(),
        templates[k].is_source,
        forall|j: int| 0 <= j < k ==> !(#[trigger] templates[j]).is_source,
    ensures
        codec_report::first_source_media(templates.skip(i)) == (match templates[k].media {
            Some(media) => Some(media@),
            None => None,
        }),
    decreases k - i,
{
    let rest = templates.skip(i);
    assert(rest[0] == templates[i]);
    if i < k {
        lemma_first_source(templates, k, i + 1);
        assert(rest.skip(1) =~= templates.skip(i + 1));
    }
}

/// What an encoder puts out is what its first source pad carries.
pub proof fn encoders_put_out_what_their_first_source_carries(templates: Seq<PadTemplate>, k: int)
    requires
        0 <= k < templates.len(),
        templates[k].is_source,
        forall|j: int| 0 <= j < k ==> !(#[trigger] templates[j]).is_source,
    ensures
        templates[k].media matches Some(media) ==> codec_report::first_source_media(templates)
            == Some(media@),
        templates[k].media is None ==> codec_report::first_source_media(templates) is None,
{
    lemma_first_source(templates, k, 0);
    assert(templates.skip(0) =~= templates);
}

// ---------------------------------------------------------------------------
// Output that runs ahead
// ---------------------------------------------------------------------------

/// A window with several leads, in the order in which they were measured.
pub open spec fn gathered(start: u64, leads: Seq<int>) -> WindowInfo
    decreases leads.len(),
{
    if leads.len() <= 1 {
        tsdemux_anchor::first_lead(start, leads[0])
    } else {
        gathered(start, leads.drop_last()).with(leads.last())
    }
}

pub open spec fn total(leads: Seq<int>) -> int
    decreases leads.len(),
{
    if leads.len() == 0 {
        0
    } else {
        total(leads.drop_last()) + leads.last()
    }
}

/// A window knows how many leads it holds, their sum, and the smallest of them.
pub proof fn windows_know_their_leads(start: u64, leads: Seq<int>, i: int)
    requires
        0 <= i < leads.len(),
    ensures
        gathered(start, leads).start == start,
        gathered(start, leads).samples == leads.len(),
        gathered(start, leads).lead_sum == total(leads),
        gathered(start, leads).min_lead <= leads[i],
        leads.contains(gathered(start, leads).min_lead),
    decreases leads.len(),
{
    let before = leads.drop_last();
    if leads.len() == 1 {
        assert(total(before) == 0);
        assert(leads.last() == leads[0]);
    } else {
        windows_know_their_leads(
            start,
            before,
            if i < before.len() {
                i
            } else {
                0
            },
        );
        let least = gathered(start, before).min_lead;
        let k = choose|k: int| 0 <= k < before.len() && before[k] == least;
        assert(leads[k] == least);
        assert(leads[leads.len() - 1] == leads.last());
    }
}

/// A window is measured for half a second of input, and starts anew where the input
/// went back. When it is over, its mean is taken away where even the smallest lead
/// is above a fifth of a second, and nothing is where it is not.
pub proof fn windows_last_half_a_second(w: WindowInfo, input: u64, lead: int)
    requires
        w.samples >= 1,
    ensures
        ({
            let (window, removed) = tsdemux_anchor::measured(Some(w), input, lead);
            let least = if lead < w.min_lead {
                lead
            } else {
                w.min_lead
            };
            &&& input < w.start ==> window == Some(tsdemux_anchor::first_lead(input, lead))
                && removed is None
            &&& w.start <= input < w.start + 500_000_000 ==> window == Some(w.with(lead))
                && removed is None
            &&& input >= w.start + 500_000_000 ==> window is None && (removed is Some <==> least
                > 200_000_000)
            &&& removed matches Some(mean) ==> mean * (w.samples + 1) <= w.lead_sum + lead < (mean
                + 1) * (w.samples + 1)
        }),
        tsdemux_anchor::measured(None, input, lead) == (
            Some(tsdemux_anchor::first_lead(input, lead)),
            None::<int>,
        ),
{
    let sum = w.lead_sum + lead;
    let n = w.samples + 1;
    let mean = sum / n;
    assert(mean * n <= sum < (mean + 1) * n) by (nonlinear_arith)
        requires
            n >= 2,
            mean == sum / n,
    ;
}

/// A timestamp that is later by some time runs that much later, and an offset shifts
/// it by as much.
pub proof fn running_times_move_with_timestamps(segment: SegmentInfo, ts: u64, d: u64, offset: int)
    requires
        segment.origin is Some,
        ts + d <= i64::MAX,
    ensures
        segment.running_time((ts + d) as u64) == Some(segment.running_time(ts)->0 + d),
        segment.shifted_to(offset).running_time(ts) == Some(
            segment.running_time(ts)->0 + offset - segment.applied_offset,
        ),
        segment.shifted_to(offset).applied_offset == offset,
{
}

/// The first moment of a segment runs at its base, on a pad that carries just what
/// the segment holds.
pub proof fn segments_start_at_their_base(segment: SegmentInfo, times: SegmentTimes)
    requires
        times.start + times.offset <= i64::MAX,
        times.base <= i64::MAX,
    ensures
        ({
            let after = segment.recorded(Some(times));
            &&& after.running_time((times.start + times.offset) as u64) == Some(times.base as int)
            &&& after.applied_offset == segment.applied_offset
            &&& after.embedded_offset == segment.applied_offset
        }),
        segment.recorded(None).origin is None,
        segment.recorded(None).applied_offset == segment.applied_offset,
{
}

/// The lead of a buffer is how much later than the newest input it runs, with the
/// correction that every pad carries. Nothing is measured before there was input
/// or a segment.
pub proof fn leads_are_over_the_newest_input(
    anchor: AnchorInfo,
    segment: SegmentInfo,
    ts: u64,
    input: u64,
)
    requires
        input <= i64::MAX,
    ensures
        segment.origin is None || anchor.last_input is None ==> anchor.lead(segment, ts) is None,
        segment.origin is Some && anchor.last_input == Some(input) ==> anchor.lead(segment, ts)
            == Some(
            segment.running_time(ts)->0 - segment.applied_offset + anchor.correction - input,
        ),
{
}

/// What is taken away is taken away from the correction, and is told. What leaves
/// with nothing measured leaves the anchor as it is.
pub proof fn removed_leads_are_corrected(anchor: AnchorInfo, segment: SegmentInfo, ts: u64)
    ensures
        ({
            let step = anchor.output(segment, ts);
            &&& step.removed matches Some(mean) ==> step.anchor.correction == anchor.correction
                - mean && step.anchor.window is None
            &&& step.removed is None ==> step.anchor.correction == anchor.correction
            &&& anchor.lead(segment, ts) is None ==> step.anchor == anchor && step.removed is None
            &&& step.anchor.last_input == anchor.last_input
            &&& step.segment == segment.shifted_to(step.anchor.correction)
        }),
{
}

/// A pad on which no segment was seen has no running times, and the first segment
/// on it holds no offset.
pub proof fn unseen_pads_carry_nothing(ts: u64, times: SegmentTimes)
    ensures
        tsdemux_anchor::unseen().running_time(ts) is None,
        tsdemux_anchor::unseen().base == 0,
        tsdemux_anchor::unseen().embedded_offset == 0,
        tsdemux_anchor::unseen().applied_offset == 0,
        tsdemux_anchor::unseen().recorded(Some(times)).embedded_offset == 0,
{
}

} // verus!
