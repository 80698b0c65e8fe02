//! Which of the video codecs that a WHEP output asked for survived codec
//! discovery.
//!
//! Before it offers a codec, the WHEP sink builds a throwaway pipeline for it and
//! keeps the codec only if something comes out at the far end. A codec whose
//! pipeline fails is dropped from the offer without a word. A filter spliced in
//! below the encoder sees caps exactly when the codec got past the encoder, and
//! that is what is recorded here.
//!
//! Only the first round of discovery counts. Its result becomes the list that
//! viewers are answered with, while every later round belongs to a viewer who has
//! already connected and is asked a different question.

use crate::sequences;
use crate::text;
use vstd::prelude::*;

verus! {

/// How long after the last discovery pipeline was built, in nanoseconds, its
/// outcome is treated as final.
pub const SETTLE_AFTER: u64 = 15_000_000_000;

/// What became of one codec's discovery pipeline.
pub struct Attempt {
    /// The encoder that was picked for the codec, once it is known.
    pub encoder: Option<String>,
    /// Whether the encoder's output was accepted.
    pub negotiated: bool,
}

pub struct AttemptInfo {
    pub encoder: Option<Seq<char>>,
    pub negotiated: bool,
}

impl View for Attempt {
    type V = AttemptInfo;

    open spec fn view(&self) -> AttemptInfo {
        AttemptInfo {
            encoder: match self.encoder {
                Some(name) => Some(name@),
                None => None,
            },
            negotiated: self.negotiated,
        }
    }
}

/// The attempts by codec.
pub type Attempts = Seq<(Seq<char>, AttemptInfo)>;

pub open spec fn attempts_of(v: Seq<(String, Attempt)>) -> Attempts {
    v.map_values(|e: (String, Attempt)| (e.0@, e.1@))
}

/// The attempts with the one of a codec replaced, or added where it has none.
pub open spec fn put(all: Attempts, codec: Seq<char>, attempt: AttemptInfo) -> Attempts
    decreases all.len(),
{
    if all.len() == 0 {
        seq![(codec, attempt)]
    } else if all[0].0 == codec {
        seq![(codec, attempt)] + all.skip(1)
    } else {
        seq![all[0]] + put(all.skip(1), codec, attempt)
    }
}

proof fn lemma_put_at(all: Attempts, codec: Seq<char>, attempt: AttemptInfo, i: int)
    requires
        0 <= i < all.len(),
        all[i].0 == codec,
        forall|j: int| 0 <= j < i ==> (#[trigger] all[j]).0 != codec,
    ensures
        put(all, codec, attempt) == all.update(i, (codec, attempt)),
        text::lookup(all, codec) == Some(all[i].1),
    decreases i,
{
    if i == 0 {
        assert(put(all, codec, attempt) =~= all.update(0, (codec, attempt)));
    } else {
        let rest = all.skip(1);
        assert forall|j: int| 0 <= j < i - 1 implies (#[trigger] rest[j]).0 != codec by {
            assert(rest[j] == all[j + 1]);
        }
        lemma_put_at(rest, codec, attempt, i - 1);
        assert(all[0].0 != codec);
        assert(put(all, codec, attempt) =~= all.update(i, (codec, attempt)));
    }
}

proof fn lemma_put_new(all: Attempts, codec: Seq<char>, attempt: AttemptInfo)
    requires
        forall|j: int| 0 <= j < all.len() ==> (#[trigger] all[j]).0 != codec,
    ensures
        put(all, codec, attempt) == all.push((codec, attempt)),
        text::lookup(all, codec) is None,
    decreases all.len(),
{
    if all.len() > 0 {
        let rest = all.skip(1);
        assert forall|j: int| 0 <= j < rest.len() implies (#[trigger] rest[j]).0 != codec by {
            assert(rest[j] == all[j + 1]);
        }
        lemma_put_new(rest, codec, attempt);
        assert(all[0].0 != codec);
    }
    assert(put(all, codec, attempt) =~= all.push((codec, attempt)));
}

/// The attempt of a codec as it stands, or one of which nothing is known.
pub open spec fn attempt_of(all: Attempts, codec: Seq<char>) -> AttemptInfo {
    match text::lookup(all, codec) {
        Some(attempt) => attempt,
        None => AttemptInfo { encoder: None, negotiated: false },
    }
}

// ---------------------------------------------------------------------------
// The report
// ---------------------------------------------------------------------------

/// Per-block record of which requested video codecs the sink kept.
pub struct CodecDiscoveryReport {
    pub block_id: String,
    pub settle_after: u64,
    /// The codecs that the block asked for, in their order.
    pub requested: Vec<String>,
    /// The outcome of discovery by codec. A codec that was never tried is absent.
    pub attempts: Vec<(String, Attempt)>,
    /// When the last discovery pipeline was built.
    pub last_attempt_at: Option<u64>,
    pub verdict: Option<String>,
    /// Whether the verdict is final.
    pub decided: bool,
}

pub struct ReportInfo {
    pub block_id: Seq<char>,
    pub settle_after: u64,
    pub requested: Seq<Seq<char>>,
    pub attempts: Attempts,
    pub last_attempt_at: Option<u64>,
    pub verdict: Option<Seq<char>>,
    pub decided: bool,
}

impl View for CodecDiscoveryReport {
    type V = ReportInfo;

    open spec fn view(&self) -> ReportInfo {
        ReportInfo {
            block_id: self.block_id@,
            settle_after: self.settle_after,
            requested: text::texts(self.requested@),
            attempts: attempts_of(self.attempts@),
            last_attempt_at: self.last_attempt_at,
            verdict: match self.verdict {
                Some(v) => Some(v@),
                None => None,
            },
            decided: self.decided,
        }
    }
}

/// A report on a block of which nothing is known yet.
pub open spec fn fresh(block_id: Seq<char>, settle_after: u64) -> ReportInfo {
    ReportInfo {
        block_id,
        settle_after,
        requested: Seq::empty(),
        attempts: Seq::empty(),
        last_attempt_at: None,
        verdict: None,
        decided: false,
    }
}

/// Whether caps of this name are an encoded video codec.
pub open spec fn is_video_codec(name: Seq<char>) -> bool {
    text::has_prefix(name, "video/"@) && name != "video/x-raw"@
}

/// A codec as an operator would name it.
pub open spec fn label_of(media_type: Seq<char>) -> Seq<char> {
    if media_type == "video/x-h264"@ {
        "H.264"@
    } else if media_type == "video/x-h265"@ {
        "H.265"@
    } else if media_type == "video/x-vp8"@ {
        "VP8"@
    } else if media_type == "video/x-vp9"@ {
        "VP9"@
    } else if media_type == "video/x-av1"@ {
        "AV1"@
    } else {
        media_type
    }
}

/// A codec as an operator would name it.
pub fn codec_label(media_type: &str) -> (r: String)
    ensures
        r@ == label_of(media_type@),
{
    if text::same(media_type, "video/x-h264") {
        "H.264".to_owned()
    } else if text::same(media_type, "video/x-h265") {
        "H.265".to_owned()
    } else if text::same(media_type, "video/x-vp8") {
        "VP8".to_owned()
    } else if text::same(media_type, "video/x-vp9") {
        "VP9".to_owned()
    } else if text::same(media_type, "video/x-av1") {
        "AV1".to_owned()
    } else {
        media_type.to_owned()
    }
}

/// Why a requested codec is missing, if it is.
pub open spec fn why_missing(codec: Seq<char>, attempt: Option<AttemptInfo>) -> Option<Seq<char>> {
    match attempt {
        None => Some(
            label_of(codec) + " was not offered: no encoder for it is installed"@,
        ),
        Some(tried) => if tried.negotiated {
            None
        } else {
            Some(
                label_of(codec) + " was dropped from the offer: "@ + match tried.encoder {
                    Some(name) => name,
                    None => "its encoder"@,
                } + " failed codec discovery"@,
            )
        },
    }
}

impl ReportInfo {
    /// The report once an encoder was picked for a codec.
    pub open spec fn encoder_recorded(self, codec: Seq<char>, encoder: Seq<char>) -> ReportInfo {
        if self.decided {
            self
        } else {
            ReportInfo {
                attempts: put(
                    self.attempts,
                    codec,
                    AttemptInfo {
                        encoder: Some(encoder),
                        ..attempt_of(self.attempts, codec)
                    },
                ),
                ..self
            }
        }
    }

    /// The report once a discovery pipeline was built for a codec.
    pub open spec fn probed(self, codec: Seq<char>, now: u64) -> ReportInfo {
        if self.decided {
            self
        } else {
            ReportInfo {
                last_attempt_at: Some(now),
                attempts: put(self.attempts, codec, attempt_of(self.attempts, codec)),
                ..self
            }
        }
    }

    /// The report once a codec's caps got past its encoder.
    pub open spec fn codec_negotiated(self, codec: Seq<char>) -> ReportInfo {
        match text::lookup(self.attempts, codec) {
            Some(attempt) => ReportInfo {
                attempts: put(
                    self.attempts,
                    codec,
                    AttemptInfo { negotiated: true, ..attempt },
                ),
                ..self
            },
            None => self,
        }
    }

    /// The requested codecs that discovery has not delivered, with the reason for
    /// each.
    pub open spec fn missing(self) -> Seq<Seq<char>> {
        self.requested.filter_map(
            |codec: Seq<char>| why_missing(codec, text::lookup(self.attempts, codec)),
        )
    }

    /// Whether discovery has been quiet for long enough to be judged.
    pub open spec fn settled(self, now: u64) -> bool {
        match self.last_attempt_at {
            Some(last) => (if now < last {
                0
            } else {
                now - last
            }) >= self.settle_after,
            None => false,
        }
    }

    /// What is said of discovery as it stands.
    pub open spec fn judgement(self) -> Option<Seq<char>> {
        if self.missing().len() == 0 {
            None
        } else {
            Some(text::join(self.missing(), "; "@))
        }
    }

    /// The report once it was asked for.
    pub open spec fn judged(self, now: u64) -> ReportInfo {
        if !self.decided && self.settled(now) {
            ReportInfo { verdict: self.judgement(), decided: true, ..self }
        } else {
            self
        }
    }

    /// What is answered when the report is asked for.
    pub open spec fn answer(self, now: u64) -> Option<Seq<char>> {
        if self.decided {
            self.verdict
        } else if self.settled(now) {
            self.judgement()
        } else {
            None
        }
    }
}

/// The name of the filter spliced in for a codec.
pub open spec fn filter_name(block_id: Seq<char>, codec: Seq<char>) -> Seq<char> {
    block_id + ":codec-probe:"@ + codec.map_values(
        |c: char|
            if c == '/' {
                '-'
            } else {
                c
            },
    )
}

fn dashed(codec: &str) -> (r: String)
    ensures
        r@ == codec@.map_values(
            |c: char|
                if c == '/' {
                    '-'
                } else {
                    c
                },
        ),
{
    let v = text::chars_of(codec);
    let mut out = String::new();
    let mut i: usize = 0;
    let ghost dash = |c: char|
        if c == '/' {
            '-'
        } else {
            c
        };
    proof {
        assert(codec@.take(0).map_values(dash) =~= Seq::<char>::empty());
    }
    while i < v.len()
        invariant
            i <= v.len(),
            v@ == codec@,
            dash == (|c: char|
                if c == '/' {
                    '-'
                } else {
                    c
                }),
            out@ == codec@.take(i as int).map_values(dash),
        decreases v.len() - i,
    {
        let c = v[i];
        if c == '/' {
            out.push('-');
        } else {
            out.push(c);
        }
        proof {
            assert(codec@.take(i + 1).map_values(dash) =~= codec@.take(i as int).map_values(
                dash,
            ).push(dash(c)));
        }
        i += 1;
    }
    proof {
        assert(codec@.take(i as int) =~= codec@);
    }
    out
}

impl CodecDiscoveryReport {
    pub fn new(block_id: String) -> (r: CodecDiscoveryReport)
        ensures
            r@ == fresh(block_id@, SETTLE_AFTER),
    {
        CodecDiscoveryReport::with_settle(block_id, SETTLE_AFTER)
    }

    /// A report with a settling delay of its own, in nanoseconds.
    pub fn with_settle(block_id: String, settle_after: u64) -> (r: CodecDiscoveryReport)
        ensures
            r@ == fresh(block_id@, settle_after),
    {
        let r = CodecDiscoveryReport {
            block_id,
            settle_after,
            requested: Vec::new(),
            attempts: Vec::new(),
            last_attempt_at: None,
            verdict: None,
            decided: false,
        };
        assert(r@.requested =~= Seq::<Seq<char>>::empty());
        assert(r@.attempts =~= Seq::<(Seq<char>, AttemptInfo)>::empty());
        r
    }

    /// The block that the report is on.
    pub fn block_id(&self) -> (r: &str)
        ensures
            r@ == self@.block_id,
    {
        self.block_id.as_str()
    }

    /// Notes the codecs that the sink was asked for, out of the names of the caps
    /// that it was given.
    pub fn set_requested(&mut self, video_caps: &Vec<String>)
        ensures
            final(self)@ == (ReportInfo {
                requested: text::texts(video_caps@).filter(|name: Seq<char>| is_video_codec(name)),
                ..old(self)@
            }),
    {
        let ghost all = text::texts(video_caps@);
        let ghost keep = |name: Seq<char>| is_video_codec(name);
        let mut requested: Vec<String> = Vec::new();
        let mut i: usize = 0;
        proof {
            reveal(Seq::filter);
            assert(text::texts(requested@) =~= all.take(0).filter(keep));
        }
        while i < video_caps.len()
            invariant
                i <= video_caps.len(),
                all == text::texts(video_caps@),
                keep == (|name: Seq<char>| is_video_codec(name)),
                text::texts(requested@) == all.take(i as int).filter(keep),
            decreases video_caps.len() - i,
        {
            let name = video_caps[i].as_str();
            proof {
                sequences::lemma_filter_take(all, keep, i as int);
            }
            if text::starts_with(name, "video/") && !text::same(name, "video/x-raw") {
                let ghost before = text::texts(requested@);
                requested.push(name.to_owned());
                assert(text::texts(requested@) =~= before.push(name@));
            }
            i += 1;
        }
        proof {
            assert(all.take(i as int) =~= all);
        }
        self.requested = requested;
    }

    /// Where the attempt of a codec stands.
    fn find(&self, codec: &str) -> (r: Option<usize>)
        ensures
            r matches Some(i) ==> i < self.attempts.len() && self@.attempts[i as int].0 == codec@
                && forall|j: int| 0 <= j < i ==> (#[trigger] self@.attempts[j]).0 != codec@,
            r is None ==> forall|j: int|
                0 <= j < self@.attempts.len() ==> (#[trigger] self@.attempts[j]).0 != codec@,
    {
        let mut i: usize = 0;
        while i < self.attempts.len()
            invariant
                i <= self.attempts.len(),
                forall|j: int| 0 <= j < i ==> (#[trigger] self@.attempts[j]).0 != codec@,
            decreases self.attempts.len() - i,
        {
            if text::same(self.attempts[i].0.as_str(), codec) {
                return Some(i);
            }
            i += 1;
        }
        None
    }

    /// Replaces the attempt of a codec, or adds it.
    fn store(&mut self, codec: &str, attempt: Attempt)
        ensures
            final(self)@ == (ReportInfo {
                attempts: put(old(self)@.attempts, codec@, attempt@),
                ..old(self)@
            }),
    {
        let ghost before = self@.attempts;
        match self.find(codec) {
            Some(i) => {
                proof {
                    lemma_put_at(before, codec@, attempt@, i as int);
                }
                self.attempts.set(i, (codec.to_owned(), attempt));
                assert(self@.attempts =~= before.update(i as int, (codec@, attempt@)));
            },
            None => {
                proof {
                    lemma_put_new(before, codec@, attempt@);
                }
                self.attempts.push((codec.to_owned(), attempt));
                assert(self@.attempts =~= before.push((codec@, attempt@)));
            },
        }
    }

    /// The attempt of a codec, if it was tried.
    fn attempt(&self, codec: &str) -> (r: Option<Attempt>)
        ensures
            r is Some == text::lookup(self@.attempts, codec@) is Some,
            r matches Some(a) ==> text::lookup(self@.attempts, codec@) == Some(a@),
    {
        match self.find(codec) {
            Some(i) => {
                proof {
                    lemma_put_at(
                        self@.attempts,
                        codec@,
                        self@.attempts[i as int].1,
                        i as int,
                    );
                }
                let found = &self.attempts[i].1;
                Some(
                    Attempt {
                        encoder: match &found.encoder {
                            Some(name) => Some(name.clone()),
                            None => None,
                        },
                        negotiated: found.negotiated,
                    },
                )
            },
            None => {
                proof {
                    lemma_put_new(
                        self@.attempts,
                        codec@,
                        AttemptInfo { encoder: None, negotiated: false },
                    );
                }
                None
            },
        }
    }

    /// Notes the encoder that was picked, by what it produces. Only an encoder that
    /// discovery picked counts: discovery names its consumer, and a session names
    /// the peer.
    pub fn encoder_setup(
        &mut self,
        consumer: Option<&str>,
        output: Option<&str>,
        encoder: &str,
    )
        ensures
            final(self)@ == match (consumer, output) {
                (Some(name), Some(codec)) => if name@ == "discovery"@ {
                    old(self)@.encoder_recorded(codec@, encoder@)
                } else {
                    old(self)@
                },
                _ => old(self)@,
            },
    {
        if let (Some(name), Some(codec)) = (consumer, output) {
            if text::same(name, "discovery") {
                self.record_encoder(codec, encoder);
            }
        }
    }

    /// Notes the encoder that discovery picked for a codec.
    pub fn record_encoder(&mut self, codec: &str, encoder: &str)
        ensures
            final(self)@ == old(self)@.encoder_recorded(codec@, encoder@),
    {
        if self.decided {
            return ;
        }
        let negotiated = match self.attempt(codec) {
            Some(found) => found.negotiated,
            None => false,
        };
        self.store(codec, Attempt { encoder: Some(encoder.to_owned()), negotiated });
    }

    /// The name of the filter to splice in where the sink asks for one, if it asks
    /// on behalf of discovery and for a video codec. Discovery passes no consumer,
    /// and an element in a session's pipeline would change what viewers get.
    pub fn requested_filter(&self, consumer: Option<&str>, codec: Option<&str>) -> (r: Option<
        String,
    >)
        ensures
            r is Some == (consumer is None && (codec matches Some(name) && text::has_prefix(
                name@,
                "video/"@,
            ))),
            r matches Some(name) ==> name@ == filter_name(self@.block_id, codec->0@),
    {
        match (consumer, codec) {
            (None, Some(name)) => if text::starts_with(name, "video/") {
                Some(self.block_id.clone().concat(":codec-probe:").concat(dashed(name).as_str()))
            } else {
                None
            },
            _ => None,
        }
    }

    /// Registers the filter for a codec, unless the verdict is final: then there is
    /// none.
    pub fn make_probe_filter(&mut self, codec: &str, now: u64) -> (r: Option<String>)
        ensures
            final(self)@ == old(self)@.probed(codec@, now),
            r is Some == !old(self)@.decided,
            r matches Some(name) ==> name@ == filter_name(old(self)@.block_id, codec@),
    {
        if self.decided {
            return None;
        }
        let attempt = match self.attempt(codec) {
            Some(found) => found,
            None => Attempt { encoder: None, negotiated: false },
        };
        self.store(codec, attempt);
        self.last_attempt_at = Some(now);
        Some(self.block_id.clone().concat(":codec-probe:").concat(dashed(codec).as_str()))
    }

    /// Notes that a codec's caps got past its encoder.
    pub fn record_negotiated(&mut self, codec: &str)
        ensures
            final(self)@ == old(self)@.codec_negotiated(codec@),
    {
        if let Some(found) = self.attempt(codec) {
            self.store(codec, Attempt { encoder: found.encoder, negotiated: true });
        }
    }

    /// Whether discovery has been quiet for long enough to be judged.
    pub fn settled(&self, now: u64) -> (r: bool)
        ensures
            r == self@.settled(now),
    {
        match self.last_attempt_at {
            Some(last) => {
                let elapsed: u64 = if now < last {
                    0
                } else {
                    now - last
                };
                elapsed >= self.settle_after
            },
            None => false,
        }
    }

    /// The requested codecs that discovery did not deliver, with the reason for
    /// each. Empty while discovery is still settling.
    pub fn missing(&self, now: u64) -> (r: Vec<String>)
        ensures
            text::texts(r@) == if self@.settled(now) {
                self@.missing()
            } else {
                Seq::<Seq<char>>::empty()
            },
    {
        if !self.settled(now) {
            let none: Vec<String> = Vec::new();
            assert(text::texts(none@) =~= Seq::<Seq<char>>::empty());
            return none;
        }
        let ghost all = self@.requested;
        let ghost pick = |codec: Seq<char>|
            why_missing(codec, text::lookup(self@.attempts, codec));
        let mut out: Vec<String> = Vec::new();
        let mut i: usize = 0;
        proof {
            reveal(Seq::filter_map);
            assert(text::texts(out@) =~= all.take(0).filter_map(pick));
        }
        while i < self.requested.len()
            invariant
                i <= self.requested.len(),
                all == self@.requested,
                pick == (|codec: Seq<char>|
                    why_missing(codec, text::lookup(self@.attempts, codec))),
                text::texts(out@) == all.take(i as int).filter_map(pick),
            decreases self.requested.len() - i,
        {
            let codec = self.requested[i].as_str();
            proof {
                all.lemma_filter_map_take_succ(pick, i as int);
                assert(all[i as int] == codec@);
            }
            let ghost before = text::texts(out@);
            match self.attempt(codec) {
                None => {
                    let reason = codec_label(codec).concat(
                        " was not offered: no encoder for it is installed",
                    );
                    out.push(reason);
                    assert(text::texts(out@) =~= before.push(reason@));
                },
                Some(tried) => {
                    if !tried.negotiated {
                        let encoder = match tried.encoder {
                            Some(name) => name,
                            None => "its encoder".to_owned(),
                        };
                        let reason = codec_label(codec).concat(
                            " was dropped from the offer: ",
                        ).concat(encoder.as_str()).concat(" failed codec discovery");
                        out.push(reason);
                        assert(text::texts(out@) =~= before.push(reason@));
                    }
                },
            }
            i += 1;
        }
        proof {
            assert(all.take(i as int) =~= all);
        }
        out
    }

    /// What is wrong with the offer, once that is known. What was said first stays.
    pub fn degraded(&mut self, now: u64) -> (r: Option<String>)
        ensures
            final(self)@ == old(self)@.judged(now),
            r is Some == old(self)@.answer(now) is Some,
            r matches Some(text) ==> old(self)@.answer(now) == Some(text@),
    {
        if !self.decided {
            if !self.settled(now) {
                return None;
            }
            let missing = self.missing(now);
            self.verdict = if missing.len() == 0 {
                None
            } else {
                Some(text::join_texts(&missing, "; "))
            };
            self.decided = true;
        }
        match &self.verdict {
            Some(verdict) => Some(verdict.clone()),
            None => None,
        }
    }
}

// ---------------------------------------------------------------------------
// Encoders
// ---------------------------------------------------------------------------

/// A pad that an encoder has: whether it is a source, and the media that it
/// starts with.
pub struct PadTemplate {
    pub is_source: bool,
    pub media: Option<String>,
}

/// The media of the first source pad.
pub open spec fn first_source_media(templates: Seq<PadTemplate>) -> Option<Seq<char>>
    decreases templates.len(),
{
    if templates.len() == 0 {
        None
    } else if templates[0].is_source {
        match templates[0].media {
            Some(media) => Some(media@),
            None => None,
        }
    } else {
        first_source_media(templates.skip(1))
    }
}

/// The media that an encoder produces, by its pads.
pub fn encoder_output_media_type(templates: &Vec<PadTemplate>) -> (r: Option<String>)
    ensures
        r is Some == first_source_media(templates@) is Some,
        r matches Some(media) ==> first_source_media(templates@) == Some(media@),
{
    let mut i: usize = 0;
    proof {
        assert(templates@.skip(0) =~= templates@);
    }
    while i < templates.len()
        invariant
            i <= templates.len(),
            first_source_media(templates@.skip(i as int)) == first_source_media(templates@),
        decreases templates.len() - i,
    {
        proof {
            assert(templates@.skip(i as int).skip(1) =~= templates@.skip(i + 1));
        }
        if templates[i].is_source {
            return match &templates[i].media {
                Some(media) => Some(media.clone()),
                None => None,
            };
        }
        i += 1;
    }
    None
}

// ---------------------------------------------------------------------------
// Laws
// ---------------------------------------------------------------------------

/// What is recorded of a codec is what is found of it, and nothing else changes.
pub proof fn recorded_attempt_is_found(
    all: Attempts,
    codec: Seq<char>,
    attempt: AttemptInfo,
    other: Seq<char>,
)
    ensures
        text::lookup(put(all, codec, attempt), codec) == Some(attempt),
        other != codec ==> text::lookup(put(all, codec, attempt), other) == text::lookup(
            all,
            other,
        ),
    decreases all.len(),
{
    let after = put(all, codec, attempt);
    if all.len() == 0 {
        assert(after.skip(1) =~= all);
    } else if all[0].0 == codec {
        assert(after.skip(1) =~= all.skip(1));
    } else {
        recorded_attempt_is_found(all.skip(1), codec, attempt, other);
        assert(after.skip(1) =~= put(all.skip(1), codec, attempt));
    }
}

/// A verdict that was reached is final: nothing that happens later changes it.
pub proof fn verdict_is_final(
    report: ReportInfo,
    codec: Seq<char>,
    encoder: Seq<char>,
    now: u64,
    later: u64,
)
    requires
        report.decided,
    ensures
        report.answer(now) == report.verdict,
        report.judged(now) == report,
        report.encoder_recorded(codec, encoder) == report,
        report.probed(codec, now) == report,
        report.codec_negotiated(codec).decided,
        report.codec_negotiated(codec).answer(later) == report.verdict,
{
}

/// What is said once discovery has settled is said from then on.
pub proof fn answer_is_repeated(report: ReportInfo, now: u64, later: u64)
    requires
        report.settled(now),
    ensures
        report.judged(now).answer(later) == report.answer(now),
{
}

/// Nothing is said before discovery has begun and settled.
pub proof fn unsettled_discovery_is_not_judged(report: ReportInfo, now: u64)
    requires
        !report.decided,
        report.last_attempt_at is None || !report.settled(now),
    ensures
        report.answer(now) is None,
        report.judged(now) == report,
{
}

/// Settled discovery is judged healthy exactly if every codec that was asked for
/// was tried and got past its encoder.
pub proof fn healthy_is_every_codec_negotiated(report: ReportInfo, now: u64)
    requires
        !report.decided,
        report.settled(now),
    ensures
        report.answer(now) is None <==> forall|i: int|
            0 <= i < report.requested.len() ==> (text::lookup(
                report.attempts,
                #[trigger] report.requested[i],
            ) matches Some(attempt) && attempt.negotiated),
{
    let all = report.requested;
    let pick = |codec: Seq<char>| why_missing(codec, text::lookup(report.attempts, codec));
    if forall|i: int| 0 <= i < all.len() ==> pick(#[trigger] all[i]) is None {
        lemma_nothing_picked(all, pick, all.len() as int);
        assert(all.take(all.len() as int) =~= all);
        assert forall|i: int| 0 <= i < all.len() implies (text::lookup(
            report.attempts,
            #[trigger] all[i],
        ) matches Some(attempt) && attempt.negotiated) by {
            assert(pick(all[i]) is None);
        }
    } else {
        let i = choose|i: int| 0 <= i < all.len() && pick(#[trigger] all[i]) is Some;
        sequences::lemma_filter_map_holds(all, pick, i, all.len() as int);
        assert(all.take(all.len() as int) =~= all);
        assert(report.missing().len() > 0);
        assert(!(text::lookup(report.attempts, all[i]) matches Some(attempt)
            && attempt.negotiated));
    }
}

proof fn lemma_nothing_picked(
    all: Seq<Seq<char>>,
    pick: spec_fn(Seq<char>) -> Option<Seq<char>>,
    n: int,
)
    requires
        0 <= n <= all.len(),
        forall|i: int| 0 <= i < all.len() ==> pick(#[trigger] all[i]) is None,
    ensures
        all.take(n).filter_map(pick).len() == 0,
    decreases n,
{
    reveal(Seq::filter_map);
    if n > 0 {
        lemma_nothing_picked(all, pick, n - 1);
        all.lemma_filter_map_take_succ(pick, n - 1);
        assert(pick(all[n - 1]) is None);
    }
}

} // verus!
