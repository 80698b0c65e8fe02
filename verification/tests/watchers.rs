use strom::blocks::codec_report::{
    codec_label, encoder_output_media_type, CodecDiscoveryReport, PadTemplate, SETTLE_AFTER,
};
use strom::blocks::tsdemux_anchor::{
    PadSegment, SegmentTimes, TsDemuxAnchor, MAX_LEAD, NONE, WINDOW,
};

// --- Codec discovery ---

/// Stand in for a discovery round: `codec` was tried with `encoder`, and
/// `negotiated` says whether its caps got past the parser capsfilter.
fn record(report: &mut CodecDiscoveryReport, codec: &str, encoder: &str, negotiated: bool) {
    report.make_probe_filter(codec, 0);
    report.record_encoder(codec, encoder);
    if negotiated {
        report.record_negotiated(codec);
    }
}

fn report_for(requested: &[&str]) -> CodecDiscoveryReport {
    let mut report = CodecDiscoveryReport::with_settle("whep".to_string(), 0);
    report.requested = requested.iter().map(|c| c.to_string()).collect();
    report
}

#[test]
fn every_requested_codec_negotiating_is_not_degraded() {
    let mut report = report_for(&["video/x-h264", "video/x-vp9"]);
    record(&mut report, "video/x-h264", "x264enc", true);
    record(&mut report, "video/x-vp9", "vp9enc", true);
    assert_eq!(report.degraded(0), None);
}

#[test]
fn a_codec_whose_discovery_failed_names_its_encoder() {
    let mut report = report_for(&["video/x-h264", "video/x-vp9"]);
    record(&mut report, "video/x-h264", "vtenc_h264", false);
    record(&mut report, "video/x-vp9", "vp9enc", true);
    assert_eq!(
        report.degraded(0).as_deref(),
        Some("H.264 was dropped from the offer: vtenc_h264 failed codec discovery")
    );
}

#[test]
fn a_codec_discovery_never_tried_reads_as_missing_encoder() {
    let mut report = report_for(&["video/x-h264", "video/x-av1"]);
    record(&mut report, "video/x-h264", "x264enc", true);
    assert_eq!(
        report.degraded(0).as_deref(),
        Some("AV1 was not offered: no encoder for it is installed")
    );
}

/// Nothing has been discovered yet, so there is no verdict to give - not even
/// "everything is missing".
#[test]
fn no_discovery_yet_is_not_degraded() {
    let mut report = report_for(&["video/x-h264"]);
    assert_eq!(report.degraded(0), None);
}

#[test]
fn a_later_round_cannot_revise_the_verdict() {
    let mut report = report_for(&["video/x-h264"]);
    record(&mut report, "video/x-h264", "vtenc_h264", false);
    let first = report.degraded(0);
    assert_eq!(
        first.as_deref(),
        Some("H.264 was dropped from the offer: vtenc_h264 failed codec discovery")
    );

    // The viewer's round negotiates the same codec.
    record(&mut report, "video/x-h264", "vtenc_h264", true);
    assert_eq!(report.degraded(0), first);
}

/// A codec that has not finished negotiating is not yet a dropped codec.
#[test]
fn an_unsettled_round_reports_nothing() {
    let mut report = CodecDiscoveryReport::with_settle("whep".to_string(), 60_000_000_000);
    report.requested = vec!["video/x-h264".to_string()];
    record(&mut report, "video/x-h264", "vtenc_h264", false);
    assert_eq!(report.degraded(0), None);
}

/// Once the first round has been judged healthy it stays healthy, and the probe
/// stops instrumenting later rounds.
#[test]
fn a_healthy_first_round_is_also_final() {
    let mut report = report_for(&["video/x-h264"]);
    record(&mut report, "video/x-h264", "vtenc_h264", true);
    assert_eq!(report.degraded(0), None);
    assert!(report.decided);
    assert!(report.make_probe_filter("video/x-h264", 0).is_none());
}

#[test]
fn requested_codecs_come_from_the_caps_the_sink_was_given() {
    let mut report = CodecDiscoveryReport::new("whep".to_string());
    report.set_requested(&vec![
        "video/x-h264".to_string(),
        "video/x-raw".to_string(),
        "video/x-vp9".to_string(),
    ]);
    assert_eq!(
        report.requested,
        vec!["video/x-h264".to_string(), "video/x-vp9".to_string()]
    );
}

#[test]
fn discovery_settles_after_its_last_attempt() {
    let mut report = CodecDiscoveryReport::new("whep".to_string());
    report.set_requested(&vec!["video/x-h265".to_string(), "video/x-vp8".to_string()]);
    report.make_probe_filter("video/x-h265", 100);
    assert_eq!(report.degraded(99), None);
    assert_eq!(report.degraded(100 + SETTLE_AFTER - 1), None);
    assert!(!report.decided);
    assert_eq!(
        report.degraded(100 + SETTLE_AFTER).as_deref(),
        Some("H.265 was dropped from the offer: its encoder failed codec discovery; VP8 was not offered: no encoder for it is installed")
    );
    assert_eq!(report.block_id(), "whep");
}

#[test]
fn only_discovery_counts() {
    let mut report = report_for(&["video/x-vp9"]);
    report.encoder_setup(Some("peer"), Some("video/x-vp9"), "vp9enc");
    report.encoder_setup(None, Some("video/x-vp9"), "vp9enc");
    report.encoder_setup(Some("discovery"), None, "vp9enc");
    assert!(report.attempts.is_empty());
    report.encoder_setup(Some("discovery"), Some("video/x-vp9"), "vp9enc");
    assert_eq!(report.attempts.len(), 1);
    assert_eq!(
        report.requested_filter(None, Some("video/x-vp9")).as_deref(),
        Some("whep:codec-probe:video-x-vp9")
    );
    assert!(report.requested_filter(Some("peer"), Some("video/x-vp9")).is_none());
    assert!(report.requested_filter(None, Some("audio/x-opus")).is_none());
    assert!(report.requested_filter(None, None).is_none());
    // A codec that was never tried has nothing to negotiate.
    report.record_negotiated("video/x-h264");
    assert_eq!(report.attempts.len(), 1);
    // Nothing is missing while discovery still settles.
    assert!(report.missing(0).is_empty());
    report.settle_after = 5;
    assert!(report.make_probe_filter("video/x-vp9", 10).is_some());
    assert!(!report.settled(14));
    assert!(report.missing(14).is_empty());
    assert_eq!(
        report.missing(15),
        vec!["VP9 was dropped from the offer: vp9enc failed codec discovery".to_string()]
    );
}

#[test]
fn an_encoder_is_known_by_its_first_source_pad() {
    let pad = |is_source: bool, media: Option<&str>| PadTemplate {
        is_source,
        media: media.map(|m| m.to_string()),
    };
    assert_eq!(
        encoder_output_media_type(&vec![
            pad(false, Some("video/x-raw")),
            pad(true, Some("video/x-h264")),
            pad(true, Some("video/x-vp8")),
        ])
        .as_deref(),
        Some("video/x-h264")
    );
    assert_eq!(
        encoder_output_media_type(&vec![pad(true, None), pad(true, Some("video/x-vp8"))]),
        None
    );
    assert_eq!(encoder_output_media_type(&Vec::new()), None);
    assert_eq!(codec_label("video/x-h265"), "H.265");
    assert_eq!(codec_label("video/x-theora"), "video/x-theora");
}

// --- Demuxed timestamps ---

const SECOND: i64 = 1_000_000_000;

/// A source pad carrying a segment that starts at zero, with the timestamps left
/// as running times.
fn segment() -> PadSegment {
    let mut segment = PadSegment::new();
    segment.record(Some(SegmentTimes {
        start: 0,
        offset: 0,
        base: 0,
    }));
    segment
}

/// One full window of buffers whose running time sits `lead` from arrival. Gives
/// back the last offset that the pad was given.
fn window(anchor: &mut TsDemuxAnchor, segment: &mut PadSegment, lead: i64, offset: i64) -> i64 {
    let mut offset = offset;
    for step in 0..8u64 {
        let input = step * 100_000_000;
        anchor.watch_input(input);
        let ts = (input as i64 + lead - segment.applied_offset) as u64;
        assert!(anchor.can_measure(segment, ts));
        let done = anchor.on_output_buffer(segment, ts);
        if let Some(o) = done.offset {
            offset = o;
        }
        if let Some(r) = done.reanchored {
            offset = r.offset;
        }
    }
    offset
}

#[test]
fn a_window_spent_behind_arrival_keeps_the_offset() {
    let mut anchor = TsDemuxAnchor::new("test");
    let mut segment = segment();
    let two_seconds = 2 * SECOND;

    let offset = window(&mut anchor, &mut segment, two_seconds, 0);
    assert_eq!(
        offset, -two_seconds,
        "a window spent ahead of arrival is re-anchored"
    );

    let offset = window(&mut anchor, &mut segment, -two_seconds, offset);
    assert_eq!(offset, -two_seconds, "the offset is left alone");
}

#[test]
fn a_caller_change_drops_the_offset() {
    let mut anchor = TsDemuxAnchor::new("test");
    let mut segment = segment();
    let two_seconds = 2 * SECOND;

    let offset = window(&mut anchor, &mut segment, two_seconds, 0);
    assert_eq!(offset, -two_seconds);

    anchor.watch_caller();
    // A pad carries the offset it finds until something is pushed through it, so
    // the next caller's first buffer is what clears it.
    let offset = window(&mut anchor, &mut segment, 0, offset);
    assert_eq!(offset, 0, "the next caller starts unshifted");
}

#[test]
fn a_lead_within_the_limit_is_healthy() {
    let mut anchor = TsDemuxAnchor::new("test");
    let mut segment = segment();
    assert_eq!(window(&mut anchor, &mut segment, MAX_LEAD as i64, 0), 0);
    let mut anchor = TsDemuxAnchor::new("test");
    let mut segment = self::segment();
    let over = MAX_LEAD as i64 + 1;
    assert_eq!(window(&mut anchor, &mut segment, over, 0), -over);
}

#[test]
fn the_mean_of_a_window_is_taken_away() {
    let mut anchor = TsDemuxAnchor::new("test");
    let mut segment = segment();
    let mut found = None;
    for (input, lead) in [(0u64, 300_000_000u64), (WINDOW / 2, 500_000_000), (WINDOW, 700_000_000)] {
        anchor.watch_input(input);
        if let Some(r) = anchor.on_output_buffer(&mut segment, input + lead).reanchored {
            found = Some((r.mean_lead, r.offset));
        }
    }
    assert_eq!(found, Some((500_000_000, -500_000_000)));
    // Another pad of the same demuxer takes the offset over.
    let mut other = self::segment();
    let done = anchor.on_output_buffer(&mut other, 0);
    assert_eq!(done.offset, Some(-500_000_000));
    assert_eq!(other.applied_offset, anchor.correction);
}

#[test]
fn nothing_is_measured_without_a_segment_or_an_input() {
    let mut anchor = TsDemuxAnchor::new("test");
    let mut bare = PadSegment::new();
    anchor.watch_input(5);
    assert!(anchor.on_output_buffer(&mut bare, 1).reanchored.is_none());
    assert!(anchor.window.is_none());
    let mut anchor = TsDemuxAnchor::new("test");
    let mut segment = segment();
    anchor.on_output_buffer(&mut segment, 1);
    assert!(anchor.window.is_none());
    anchor.watch_input(NONE);
    assert!(anchor.last_input.is_none());
    segment.record(None);
    assert!(segment.running_time(3).is_none());
    assert!(anchor.watch_demuxer(false).is_none());
    assert!(anchor.watch_demuxer(true).is_some());
}

#[test]
fn a_segment_already_holds_the_offset_of_its_pad() {
    let mut segment = segment();
    segment.applied_offset = -30;
    assert_eq!(segment.running_time(100), Some(70));
    segment.record(Some(SegmentTimes {
        start: 10,
        offset: 5,
        base: 7,
    }));
    assert_eq!(segment.running_time(100), Some(100 - 15 + 7));
    segment.record(Some(SegmentTimes {
        start: NONE,
        offset: 0,
        base: 0,
    }));
    assert!(segment.running_time(100).is_none());
}

#[test]
fn numbers_out_of_range_are_not_measured() {
    let mut anchor = TsDemuxAnchor::new("test");
    let mut segment = segment();
    segment.base = i64::MAX as u64;
    anchor.watch_input(0);
    assert!(!anchor.can_measure(&segment, 1));
    assert!(anchor.can_measure(&segment, 0));
}
