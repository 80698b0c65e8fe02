//! The names of the elements of a vision mixer, and that they differ.
//!
//! Every name begins with a [`Stem`]. Behind it stands the number of an input or
//! of a downstream key, where there is one, and for what belongs to a tile the
//! number of the tile before that.

use crate::blocks::plan;
use crate::blocks::plan::PlanInfo;
use crate::blocks::vision_mixer::links;
use crate::blocks::vision_mixer::params;
use crate::blocks::vision_mixer::params::PipelineInfo;
use crate::text;
use vstd::prelude::*;

verus! {

/// What a name begins with.
pub enum Stem {
    Mixer,
    MvComp,
    QueuePostDist,
    TeePgm,
    QueueDistOut,
    GldownloadDist,
    CapsfilterDist,
    QueuePgmMv,
    CapsfilterPgmMv,
    QueueDsk,
    GluploadDsk,
    GlcolorconvertDsk,
    VideoconvertDsk,
    CapsfilterDsk,
    QueuePostMv,
    TeeMv,
    QueueMvOut,
    GldownloadMv,
    CapsfilterMv,
    AppsrcOverlay,
    QueueOverlay,
    GluploadOverlay,
    VideoconvertOverlay,
    CapsfilterOverlay,
    AppsrcPgmOverlay,
    QueuePgmOverlay,
    VideoconvertPgmOverlay,
    CapsfilterPgmOverlay,
    Queue,
    Glupload,
    Glcolorconvert,
    Videoconvert,
    CapsfilterIn,
    Tee,
    QueueToDist,
    QueueToMvThumb,
    QueueToMvPvw,
    VideocropDist,
    VideocropPvw,
    QueueToMvPip,
    VideocropPip,
    QueueAudio,
    AudioconvertAudio,
    LevelAudio,
    FakesinkAudio,
    QueueAudioPgm,
    AudioconvertAudioPgm,
    LevelAudioPgm,
    FakesinkAudioPgm,
}

impl Stem {
    pub open spec fn text(self) -> Seq<char> {
        match self {
            Stem::Mixer => "mixer"@,
            Stem::MvComp => "mv_comp"@,
            Stem::QueuePostDist => "queue_post_dist"@,
            Stem::TeePgm => "tee_pgm"@,
            Stem::QueueDistOut => "queue_dist_out"@,
            Stem::GldownloadDist => "gldownload_dist"@,
            Stem::CapsfilterDist => "capsfilter_dist"@,
            Stem::QueuePgmMv => "queue_pgm_mv"@,
            Stem::CapsfilterPgmMv => "capsfilter_pgm_mv"@,
            Stem::QueueDsk => "queue_dsk_"@,
            Stem::GluploadDsk => "glupload_dsk_"@,
            Stem::GlcolorconvertDsk => "glcolorconvert_dsk_"@,
            Stem::VideoconvertDsk => "videoconvert_dsk_"@,
            Stem::CapsfilterDsk => "capsfilter_dsk_"@,
            Stem::QueuePostMv => "queue_post_mv"@,
            Stem::TeeMv => "tee_mv"@,
            Stem::QueueMvOut => "queue_mv_out"@,
            Stem::GldownloadMv => "gldownload_mv"@,
            Stem::CapsfilterMv => "capsfilter_mv"@,
            Stem::AppsrcOverlay => "appsrc_overlay"@,
            Stem::QueueOverlay => "queue_overlay"@,
            Stem::GluploadOverlay => "glupload_overlay"@,
            Stem::VideoconvertOverlay => "videoconvert_overlay"@,
            Stem::CapsfilterOverlay => "capsfilter_overlay"@,
            Stem::AppsrcPgmOverlay => "appsrc_pgm_overlay"@,
            Stem::QueuePgmOverlay => "queue_pgm_overlay"@,
            Stem::VideoconvertPgmOverlay => "videoconvert_pgm_overlay"@,
            Stem::CapsfilterPgmOverlay => "capsfilter_pgm_overlay"@,
            Stem::Queue => "queue_"@,
            Stem::Glupload => "glupload_"@,
            Stem::Glcolorconvert => "glcolorconvert_"@,
            Stem::Videoconvert => "videoconvert_"@,
            Stem::CapsfilterIn => "capsfilter_in_"@,
            Stem::Tee => "tee_"@,
            Stem::QueueToDist => "queue_to_dist_"@,
            Stem::QueueToMvThumb => "queue_to_mv_thumb_"@,
            Stem::QueueToMvPvw => "queue_to_mv_pvw_"@,
            Stem::VideocropDist => "videocrop_dist_"@,
            Stem::VideocropPvw => "videocrop_pvw_"@,
            Stem::QueueToMvPip => "queue_to_mv_pip_"@,
            Stem::VideocropPip => "videocrop_pip_"@,
            Stem::QueueAudio => "queue_audio_"@,
            Stem::AudioconvertAudio => "audioconvert_audio_"@,
            Stem::LevelAudio => "level_audio_"@,
            Stem::FakesinkAudio => "fakesink_audio_"@,
            Stem::QueueAudioPgm => "queue_audio_pgm"@,
            Stem::AudioconvertAudioPgm => "audioconvert_audio_pgm"@,
            Stem::LevelAudioPgm => "level_audio_pgm"@,
            Stem::FakesinkAudioPgm => "fakesink_audio_pgm"@,
        }
    }

    /// The parts of a mixer are added one group after the other.
    pub open spec fn group(self) -> int {
        match self {
            Stem::Mixer | Stem::MvComp => 0,
            Stem::QueuePostDist | Stem::TeePgm | Stem::QueueDistOut => 1,
            Stem::GldownloadDist | Stem::CapsfilterDist => 2,
            Stem::QueuePgmMv | Stem::CapsfilterPgmMv => 3,
            Stem::QueueDsk
            | Stem::GluploadDsk
            | Stem::GlcolorconvertDsk
            | Stem::VideoconvertDsk
            | Stem::CapsfilterDsk => 4,
            Stem::QueuePostMv | Stem::TeeMv | Stem::QueueMvOut => 5,
            Stem::GldownloadMv | Stem::CapsfilterMv => 6,
            Stem::AppsrcOverlay
            | Stem::QueueOverlay
            | Stem::GluploadOverlay
            | Stem::VideoconvertOverlay
            | Stem::CapsfilterOverlay => 7,
            Stem::AppsrcPgmOverlay
            | Stem::QueuePgmOverlay
            | Stem::VideoconvertPgmOverlay
            | Stem::CapsfilterPgmOverlay => 8,
            Stem::Queue
            | Stem::Glupload
            | Stem::Glcolorconvert
            | Stem::Videoconvert
            | Stem::CapsfilterIn
            | Stem::Tee
            | Stem::QueueToDist
            | Stem::QueueToMvThumb
            | Stem::QueueToMvPvw
            | Stem::VideocropDist
            | Stem::VideocropPvw
            | Stem::QueueToMvPip
            | Stem::VideocropPip => 9,
            Stem::QueueAudio
            | Stem::AudioconvertAudio
            | Stem::LevelAudio
            | Stem::FakesinkAudio => 10,
            Stem::QueueAudioPgm
            | Stem::AudioconvertAudioPgm
            | Stem::LevelAudioPgm
            | Stem::FakesinkAudioPgm => 11,
        }
    }
}

proof fn lemma_stems_differ(a: Stem, b: Stem)
    requires
        a.text() == b.text(),
    ensures
        a == b,
{
    reveal_strlit("mixer");
    reveal_strlit("mv_comp");
    reveal_strlit("queue_post_dist");
    reveal_strlit("tee_pgm");
    reveal_strlit("queue_dist_out");
    reveal_strlit("gldownload_dist");
    reveal_strlit("capsfilter_dist");
    reveal_strlit("queue_pgm_mv");
    reveal_strlit("capsfilter_pgm_mv");
    reveal_strlit("queue_dsk_");
    reveal_strlit("glupload_dsk_");
    reveal_strlit("glcolorconvert_dsk_");
    reveal_strlit("videoconvert_dsk_");
    reveal_strlit("capsfilter_dsk_");
    reveal_strlit("queue_post_mv");
    reveal_strlit("tee_mv");
    reveal_strlit("queue_mv_out");
    reveal_strlit("gldownload_mv");
    reveal_strlit("capsfilter_mv");
    reveal_strlit("appsrc_overlay");
    reveal_strlit("queue_overlay");
    reveal_strlit("glupload_overlay");
    reveal_strlit("videoconvert_overlay");
    reveal_strlit("capsfilter_overlay");
    reveal_strlit("appsrc_pgm_overlay");
    reveal_strlit("queue_pgm_overlay");
    reveal_strlit("videoconvert_pgm_overlay");
    reveal_strlit("capsfilter_pgm_overlay");
    reveal_strlit("queue_");
    reveal_strlit("glupload_");
    reveal_strlit("glcolorconvert_");
    reveal_strlit("videoconvert_");
    reveal_strlit("capsfilter_in_");
    reveal_strlit("tee_");
    reveal_strlit("queue_to_dist_");
    reveal_strlit("queue_to_mv_thumb_");
    reveal_strlit("queue_to_mv_pvw_");
    reveal_strlit("videocrop_dist_");
    reveal_strlit("videocrop_pvw_");
    reveal_strlit("queue_to_mv_pip_");
    reveal_strlit("videocrop_pip_");
    reveal_strlit("queue_audio_");
    reveal_strlit("audioconvert_audio_");
    reveal_strlit("level_audio_");
    reveal_strlit("fakesink_audio_");
    reveal_strlit("queue_audio_pgm");
    reveal_strlit("audioconvert_audio_pgm");
    reveal_strlit("level_audio_pgm");
    reveal_strlit("fakesink_audio_pgm");
    assert("mixer"@.len() == 5);
    assert("mv_comp"@.len() == 7 && "mv_comp"@[0] == 'm');
    assert("queue_post_dist"@.len() == 15
        && "queue_post_dist"@[8] == 's'
        && "queue_post_dist"@[0] == 'q'
        && "queue_post_dist"@[12] == 'i');
    assert("tee_pgm"@.len() == 7 && "tee_pgm"@[0] == 't');
    assert("queue_dist_out"@.len() == 14 && "queue_dist_out"@[12] == 'u');
    assert("gldownload_dist"@.len() == 15
        && "gldownload_dist"@[8] == 'a'
        && "gldownload_dist"@[0] == 'g'
        && "gldownload_dist"@[12] == 'i');
    assert("capsfilter_dist"@.len() == 15
        && "capsfilter_dist"@[8] == 'e'
        && "capsfilter_dist"@[0] == 'c'
        && "capsfilter_dist"@[12] == 'i');
    assert("queue_pgm_mv"@.len() == 12 && "queue_pgm_mv"@[6] == 'p' && "queue_pgm_mv"@[0] == 'q');
    assert("capsfilter_pgm_mv"@.len() == 17 && "capsfilter_pgm_mv"@[0] == 'c');
    assert("queue_dsk_"@.len() == 10);
    assert("glupload_dsk_"@.len() == 13
        && "glupload_dsk_"@[3] == 'p'
        && "glupload_dsk_"@[6] == 'a');
    assert("glcolorconvert_dsk_"@.len() == 19 && "glcolorconvert_dsk_"@[0] == 'g');
    assert("videoconvert_dsk_"@.len() == 17 && "videoconvert_dsk_"@[0] == 'v');
    assert("capsfilter_dsk_"@.len() == 15
        && "capsfilter_dsk_"@[8] == 'e'
        && "capsfilter_dsk_"@[0] == 'c'
        && "capsfilter_dsk_"@[12] == 's');
    assert("queue_post_mv"@.len() == 13
        && "queue_post_mv"@[3] == 'u'
        && "queue_post_mv"@[6] == 'p');
    assert("tee_mv"@.len() == 6 && "tee_mv"@[0] == 't');
    assert("queue_mv_out"@.len() == 12 && "queue_mv_out"@[6] == 'm' && "queue_mv_out"@[0] == 'q');
    assert("gldownload_mv"@.len() == 13
        && "gldownload_mv"@[3] == 'o'
        && "gldownload_mv"@[6] == 'l');
    assert("capsfilter_mv"@.len() == 13
        && "capsfilter_mv"@[3] == 's'
        && "capsfilter_mv"@[6] == 'l');
    assert("appsrc_overlay"@.len() == 14 && "appsrc_overlay"@[12] == 'a');
    assert("queue_overlay"@.len() == 13
        && "queue_overlay"@[3] == 'u'
        && "queue_overlay"@[6] == 'o');
    assert("glupload_overlay"@.len() == 16 && "glupload_overlay"@[13] == 'l');
    assert("videoconvert_overlay"@.len() == 20);
    assert("capsfilter_overlay"@.len() == 18 && "capsfilter_overlay"@[0] == 'c');
    assert("appsrc_pgm_overlay"@.len() == 18 && "appsrc_pgm_overlay"@[0] == 'a');
    assert("queue_pgm_overlay"@.len() == 17 && "queue_pgm_overlay"@[0] == 'q');
    assert("videoconvert_pgm_overlay"@.len() == 24);
    assert("capsfilter_pgm_overlay"@.len() == 22 && "capsfilter_pgm_overlay"@[0] == 'c');
    assert("queue_"@.len() == 6 && "queue_"@[0] == 'q');
    assert("glupload_"@.len() == 9);
    assert("glcolorconvert_"@.len() == 15
        && "glcolorconvert_"@[8] == 'o'
        && "glcolorconvert_"@[0] == 'g'
        && "glcolorconvert_"@[12] == 'r');
    assert("videoconvert_"@.len() == 13
        && "videoconvert_"@[3] == 'e'
        && "videoconvert_"@[6] == 'o');
    assert("capsfilter_in_"@.len() == 14 && "capsfilter_in_"@[12] == 'n');
    assert("tee_"@.len() == 4);
    assert("queue_to_dist_"@.len() == 14 && "queue_to_dist_"@[12] == 't');
    assert("queue_to_mv_thumb_"@.len() == 18 && "queue_to_mv_thumb_"@[0] == 'q');
    assert("queue_to_mv_pvw_"@.len() == 16 && "queue_to_mv_pvw_"@[13] == 'v');
    assert("videocrop_dist_"@.len() == 15
        && "videocrop_dist_"@[8] == 'p'
        && "videocrop_dist_"@[0] == 'v'
        && "videocrop_dist_"@[12] == 's');
    assert("videocrop_pvw_"@.len() == 14 && "videocrop_pvw_"@[12] == 'w');
    assert("queue_to_mv_pip_"@.len() == 16 && "queue_to_mv_pip_"@[13] == 'i');
    assert("videocrop_pip_"@.len() == 14 && "videocrop_pip_"@[12] == 'p');
    assert("queue_audio_"@.len() == 12 && "queue_audio_"@[6] == 'a' && "queue_audio_"@[0] == 'q');
    assert("audioconvert_audio_"@.len() == 19 && "audioconvert_audio_"@[0] == 'a');
    assert("level_audio_"@.len() == 12 && "level_audio_"@[6] == 'a' && "level_audio_"@[0] == 'l');
    assert("fakesink_audio_"@.len() == 15
        && "fakesink_audio_"@[8] == '_'
        && "fakesink_audio_"@[0] == 'f'
        && "fakesink_audio_"@[12] == 'i');
    assert("queue_audio_pgm"@.len() == 15
        && "queue_audio_pgm"@[8] == 'd'
        && "queue_audio_pgm"@[0] == 'q'
        && "queue_audio_pgm"@[12] == 'p');
    assert("audioconvert_audio_pgm"@.len() == 22 && "audioconvert_audio_pgm"@[0] == 'a');
    assert("level_audio_pgm"@.len() == 15
        && "level_audio_pgm"@[8] == 'd'
        && "level_audio_pgm"@[0] == 'l'
        && "level_audio_pgm"@[12] == 'p');
    assert("fakesink_audio_pgm"@.len() == 18 && "fakesink_audio_pgm"@[0] == 'f');
}

proof fn lemma_stems_end_in_letters(s: Stem)
    ensures
        s.text().len() >= 2,
        !text::is_digit(s.text()[s.text().len() - 1]),
        !text::is_digit(s.text()[s.text().len() - 2]),
{
    reveal_strlit("mixer");
    reveal_strlit("mv_comp");
    reveal_strlit("queue_post_dist");
    reveal_strlit("tee_pgm");
    reveal_strlit("queue_dist_out");
    reveal_strlit("gldownload_dist");
    reveal_strlit("capsfilter_dist");
    reveal_strlit("queue_pgm_mv");
    reveal_strlit("capsfilter_pgm_mv");
    reveal_strlit("queue_dsk_");
    reveal_strlit("glupload_dsk_");
    reveal_strlit("glcolorconvert_dsk_");
    reveal_strlit("videoconvert_dsk_");
    reveal_strlit("capsfilter_dsk_");
    reveal_strlit("queue_post_mv");
    reveal_strlit("tee_mv");
    reveal_strlit("queue_mv_out");
    reveal_strlit("gldownload_mv");
    reveal_strlit("capsfilter_mv");
    reveal_strlit("appsrc_overlay");
    reveal_strlit("queue_overlay");
    reveal_strlit("glupload_overlay");
    reveal_strlit("videoconvert_overlay");
    reveal_strlit("capsfilter_overlay");
    reveal_strlit("appsrc_pgm_overlay");
    reveal_strlit("queue_pgm_overlay");
    reveal_strlit("videoconvert_pgm_overlay");
    reveal_strlit("capsfilter_pgm_overlay");
    reveal_strlit("queue_");
    reveal_strlit("glupload_");
    reveal_strlit("glcolorconvert_");
    reveal_strlit("videoconvert_");
    reveal_strlit("capsfilter_in_");
    reveal_strlit("tee_");
    reveal_strlit("queue_to_dist_");
    reveal_strlit("queue_to_mv_thumb_");
    reveal_strlit("queue_to_mv_pvw_");
    reveal_strlit("videocrop_dist_");
    reveal_strlit("videocrop_pvw_");
    reveal_strlit("queue_to_mv_pip_");
    reveal_strlit("videocrop_pip_");
    reveal_strlit("queue_audio_");
    reveal_strlit("audioconvert_audio_");
    reveal_strlit("level_audio_");
    reveal_strlit("fakesink_audio_");
    reveal_strlit("queue_audio_pgm");
    reveal_strlit("audioconvert_audio_pgm");
    reveal_strlit("level_audio_pgm");
    reveal_strlit("fakesink_audio_pgm");
    assert("mixer"@.len() == 5 && "mixer"@[4] == 'r' && "mixer"@[3] == 'e');
    assert("mv_comp"@.len() == 7 && "mv_comp"@[6] == 'p' && "mv_comp"@[5] == 'm');
    assert("queue_post_dist"@.len() == 15
        && "queue_post_dist"@[14] == 't'
        && "queue_post_dist"@[13] == 's');
    assert("tee_pgm"@.len() == 7 && "tee_pgm"@[6] == 'm' && "tee_pgm"@[5] == 'g');
    assert("queue_dist_out"@.len() == 14
        && "queue_dist_out"@[13] == 't'
        && "queue_dist_out"@[12] == 'u');
    assert("gldownload_dist"@.len() == 15
        && "gldownload_dist"@[14] == 't'
        && "gldownload_dist"@[13] == 's');
    assert("capsfilter_dist"@.len() == 15
        && "capsfilter_dist"@[14] == 't'
        && "capsfilter_dist"@[13] == 's');
    assert("queue_pgm_mv"@.len() == 12
        && "queue_pgm_mv"@[11] == 'v'
        && "queue_pgm_mv"@[10] == 'm');
    assert("capsfilter_pgm_mv"@.len() == 17
        && "capsfilter_pgm_mv"@[16] == 'v'
        && "capsfilter_pgm_mv"@[15] == 'm');
    assert("queue_dsk_"@.len() == 10 && "queue_dsk_"@[9] == '_' && "queue_dsk_"@[8] == 'k');
    assert("glupload_dsk_"@.len() == 13
        && "glupload_dsk_"@[12] == '_'
        && "glupload_dsk_"@[11] == 'k');
    assert("glcolorconvert_dsk_"@.len() == 19
        && "glcolorconvert_dsk_"@[18] == '_'
        && "glcolorconvert_dsk_"@[17] == 'k');
    assert("videoconvert_dsk_"@.len() == 17
        && "videoconvert_dsk_"@[16] == '_'
        && "videoconvert_dsk_"@[15] == 'k');
    assert("capsfilter_dsk_"@.len() == 15
        && "capsfilter_dsk_"@[14] == '_'
        && "capsfilter_dsk_"@[13] == 'k');
    assert("queue_post_mv"@.len() == 13
        && "queue_post_mv"@[12] == 'v'
        && "queue_post_mv"@[11] == 'm');
    assert("tee_mv"@.len() == 6 && "tee_mv"@[5] == 'v' && "tee_mv"@[4] == 'm');
    assert("queue_mv_out"@.len() == 12
        && "queue_mv_out"@[11] == 't'
        && "queue_mv_out"@[10] == 'u');
    assert("gldownload_mv"@.len() == 13
        && "gldownload_mv"@[12] == 'v'
        && "gldownload_mv"@[11] == 'm');
    assert("capsfilter_mv"@.len() == 13
        && "capsfilter_mv"@[12] == 'v'
        && "capsfilter_mv"@[11] == 'm');
    assert("appsrc_overlay"@.len() == 14
        && "appsrc_overlay"@[13] == 'y'
        && "appsrc_overlay"@[12] == 'a');
    assert("queue_overlay"@.len() == 13
        && "queue_overlay"@[12] == 'y'
        && "queue_overlay"@[11] == 'a');
    assert("glupload_overlay"@.len() == 16
        && "glupload_overlay"@[15] == 'y'
        && "glupload_overlay"@[14] == 'a');
    assert("videoconvert_overlay"@.len() == 20
        && "videoconvert_overlay"@[19] == 'y'
        && "videoconvert_overlay"@[18] == 'a');
    assert("capsfilter_overlay"@.len() == 18
        && "capsfilter_overlay"@[17] == 'y'
        && "capsfilter_overlay"@[16] == 'a');
    assert("appsrc_pgm_overlay"@.len() == 18
        && "appsrc_pgm_overlay"@[17] == 'y'
        && "appsrc_pgm_overlay"@[16] == 'a');
    assert("queue_pgm_overlay"@.len() == 17
        && "queue_pgm_overlay"@[16] == 'y'
        && "queue_pgm_overlay"@[15] == 'a');
    assert("videoconvert_pgm_overlay"@.len() == 24
        && "videoconvert_pgm_overlay"@[23] == 'y'
        && "videoconvert_pgm_overlay"@[22] == 'a');
    assert("capsfilter_pgm_overlay"@.len() == 22
        && "capsfilter_pgm_overlay"@[21] == 'y'
        && "capsfilter_pgm_overlay"@[20] == 'a');
    assert("queue_"@.len() == 6 && "queue_"@[5] == '_' && "queue_"@[4] == 'e');
    assert("glupload_"@.len() == 9 && "glupload_"@[8] == '_' && "glupload_"@[7] == 'd');
    assert("glcolorconvert_"@.len() == 15
        && "glcolorconvert_"@[14] == '_'
        && "glcolorconvert_"@[13] == 't');
    assert("videoconvert_"@.len() == 13
        && "videoconvert_"@[12] == '_'
        && "videoconvert_"@[11] == 't');
    assert("capsfilter_in_"@.len() == 14
        && "capsfilter_in_"@[13] == '_'
        && "capsfilter_in_"@[12] == 'n');
    assert("tee_"@.len() == 4 && "tee_"@[3] == '_' && "tee_"@[2] == 'e');
    assert("queue_to_dist_"@.len() == 14
        && "queue_to_dist_"@[13] == '_'
        && "queue_to_dist_"@[12] == 't');
    assert("queue_to_mv_thumb_"@.len() == 18
        && "queue_to_mv_thumb_"@[17] == '_'
        && "queue_to_mv_thumb_"@[16] == 'b');
    assert("queue_to_mv_pvw_"@.len() == 16
        && "queue_to_mv_pvw_"@[15] == '_'
        && "queue_to_mv_pvw_"@[14] == 'w');
    assert("videocrop_dist_"@.len() == 15
        && "videocrop_dist_"@[14] == '_'
        && "videocrop_dist_"@[13] == 't');
    assert("videocrop_pvw_"@.len() == 14
        && "videocrop_pvw_"@[13] == '_'
        && "videocrop_pvw_"@[12] == 'w');
    assert("queue_to_mv_pip_"@.len() == 16
        && "queue_to_mv_pip_"@[15] == '_'
        && "queue_to_mv_pip_"@[14] == 'p');
    assert("videocrop_pip_"@.len() == 14
        && "videocrop_pip_"@[13] == '_'
        && "videocrop_pip_"@[12] == 'p');
    assert("queue_audio_"@.len() == 12
        && "queue_audio_"@[11] == '_'
        && "queue_audio_"@[10] == 'o');
    assert("audioconvert_audio_"@.len() == 19
        && "audioconvert_audio_"@[18] == '_'
        && "audioconvert_audio_"@[17] == 'o');
    assert("level_audio_"@.len() == 12
        && "level_audio_"@[11] == '_'
        && "level_audio_"@[10] == 'o');
    assert("fakesink_audio_"@.len() == 15
        && "fakesink_audio_"@[14] == '_'
        && "fakesink_audio_"@[13] == 'o');
    assert("queue_audio_pgm"@.len() == 15
        && "queue_audio_pgm"@[14] == 'm'
        && "queue_audio_pgm"@[13] == 'g');
    assert("audioconvert_audio_pgm"@.len() == 22
        && "audioconvert_audio_pgm"@[21] == 'm'
        && "audioconvert_audio_pgm"@[20] == 'g');
    assert("level_audio_pgm"@.len() == 15
        && "level_audio_pgm"@[14] == 'm'
        && "level_audio_pgm"@[13] == 'g');
    assert("fakesink_audio_pgm"@.len() == 18
        && "fakesink_audio_pgm"@[17] == 'm'
        && "fakesink_audio_pgm"@[16] == 'g');
}

/// The name of an element: its stem, the tile that it belongs to, and the input
/// or downstream key.
pub struct Label {
    pub stem: Stem,
    pub pip: Option<nat>,
    pub number: Option<nat>,
}

pub open spec fn plain(stem: Stem) -> Label {
    Label { stem, pip: None, number: None }
}

pub open spec fn counted(stem: Stem, i: int) -> Label {
    Label { stem, pip: None, number: Some(i as nat) }
}

pub open spec fn tiled(stem: Stem, pip: int, i: int) -> Label {
    Label { stem, pip: Some(pip as nat), number: Some(i as nat) }
}

impl Label {
    pub open spec fn valid(self) -> bool {
        self.pip is Some ==> self.number is Some
    }

    /// What stands before the last number.
    pub open spec fn head(self) -> Seq<char> {
        match self.pip {
            Some(pip) => plan::numbered(self.stem.text(), pip as int) + "_"@,
            None => self.stem.text(),
        }
    }

    pub open spec fn written(self) -> Seq<char> {
        plan::spelled((self.head(), self.number))
    }
}

proof fn lemma_head(l: Label)
    requires
        l.valid(),
    ensures
        plan::is_stem(l.head()),
        l.head().len() >= 2,
        text::is_digit(l.head()[l.head().len() - 2]) == l.pip is Some,
{
    lemma_stems_end_in_letters(l.stem);
    if let Some(pip) = l.pip {
        reveal_strlit("_");
        text::lemma_decimal_is_digits(pip);
        let digits = text::decimal(pip);
        let ok = |c: char| text::is_digit(c);
        assert(ok(digits[digits.len() - 1]));
        assert(l.head()[l.head().len() - 2] == digits[digits.len() - 1]);
    }
}

/// Two labels are written the same way only if they are the same.
pub proof fn labels_are_told_apart(a: Label, b: Label)
    requires
        a.valid(),
        b.valid(),
        a.written() == b.written(),
    ensures
        a == b,
{
    lemma_head(a);
    lemma_head(b);
    plan::spelling_is_injective((a.head(), a.number), (b.head(), b.number));
    lemma_stems_end_in_letters(a.stem);
    lemma_stems_end_in_letters(b.stem);
    if let (Some(m), Some(n)) = (a.pip, b.pip) {
        reveal_strlit("_");
        let x = plan::numbered(a.stem.text(), m as int);
        let y = plan::numbered(b.stem.text(), n as int);
        assert(x =~= a.head().drop_last());
        assert(y =~= b.head().drop_last());
        plan::spelling_is_injective((a.stem.text(), Some(m)), (b.stem.text(), Some(n)));
    }
    lemma_stems_differ(a.stem, b.stem);
}

/// The elements of a plan have these labels, and no label is there twice.
pub open spec fn named(plan: PlanInfo, p: PipelineInfo, labels: Seq<Label>) -> bool {
    &&& plan.elements.len() == labels.len()
    &&& forall|i: int| 0 <= i < labels.len() ==> (#[trigger] labels[i]).valid()
    &&& forall|i: int|
        0 <= i < labels.len() ==> (#[trigger] plan.elements[i]).id == p.id(labels[i].written())
    &&& forall|i: int, j: int|
        0 <= i < j < labels.len() ==> #[trigger] labels[i] != #[trigger] labels[j]
}

/// Everything so far belongs to groups before that of the stem.
pub open spec fn before(labels: Seq<Label>, s: Stem) -> bool {
    forall|i: int| 0 <= i < labels.len() ==> (#[trigger] labels[i]).stem.group() < s.group()
}

/// Everything so far belongs to groups before that of the stem, or to that group
/// with a number below `n`.
pub open spec fn counted_to(labels: Seq<Label>, s: Stem, n: int) -> bool {
    forall|i: int|
        0 <= i < labels.len() ==> (#[trigger] labels[i]).stem.group() < s.group()
            || labels[i].stem.group() == s.group() && labels[i].number is Some
            && labels[i].number->0 < n
}

/// Of what is numbered `i` in the group of the inputs only these stems are there.
pub open spec fn counts_only(labels: Seq<Label>, i: int, among: Seq<Stem>) -> bool {
    forall|k: int|
        0 <= k < labels.len() && (#[trigger] labels[k]).stem.group() == Stem::Queue.group()
            && labels[k].number == Some(i as nat) ==> among.contains(labels[k].stem)
            && labels[k].pip is None
}

/// Of what is numbered `i` among the inputs, only the first `n` tiles are there.
pub open spec fn tiled_to(labels: Seq<Label>, i: int, n: nat) -> bool {
    forall|k: int|
        0 <= k < labels.len() && (#[trigger] labels[k]).stem.group() == Stem::Queue.group()
            && labels[k].number == Some(i as nat) && labels[k].pip is Some
            ==> labels[k].pip->0 < n
}

/// Elements with different labels have different ids.
pub proof fn lemma_named_ids_differ(plan: PlanInfo, p: PipelineInfo, labels: Seq<Label>)
    requires
        named(plan, p, labels),
    ensures
        plan.ids_differ(),
{
    assert forall|i: int, j: int| 0 <= i < j < plan.elements.len() implies (
    #[trigger] plan.elements[i]).id != (#[trigger] plan.elements[j]).id by {
        let a = labels[i];
        let b = labels[j];
        plan::member_is_injective(p.instance, a.written(), b.written());
        if a.written() == b.written() {
            labels_are_told_apart(a, b);
        }
    }
}

/// Both compositors.
pub proof fn named_compositors(p: PipelineInfo) -> (r: Seq<Label>)
    ensures
        named(params::compositors(p), p, r),
        before(r, Stem::QueuePostDist),
{
    seq![plain(Stem::Mixer), plain(Stem::MvComp)]
}

proof fn named_meter(base: PlanInfo, p: PipelineInfo, labels: Seq<Label>, i: int) -> (r: Seq<Label>)
    requires
        0 <= i,
        named(base, p, labels),
        counted_to(labels, Stem::QueueAudio, i),
    ensures
        named(links::meter(base, p, i), p, r),
        counted_to(r, Stem::QueueAudio, i + 1),
{
    labels
        .push(counted(Stem::QueueAudio, i))
        .push(counted(Stem::AudioconvertAudio, i))
        .push(counted(Stem::LevelAudio, i))
        .push(counted(Stem::FakesinkAudio, i))
}

proof fn named_meters(
    base: PlanInfo,
    p: PipelineInfo,
    labels: Seq<Label>,
    n: nat,
) -> (r: Seq<Label>)
    requires
        named(base, p, labels),
        before(labels, Stem::QueueAudio),
    ensures
        named(links::meters(base, p, n), p, r),
        counted_to(r, Stem::QueueAudio, n as int),
    decreases n,
{
    if n == 0 {
        labels
    } else {
        let done = named_meters(base, p, labels, (n - 1) as nat);
        named_meter(links::meters(base, p, (n - 1) as nat), p, done, n - 1)
    }
}

/// The meters, behind all other parts.
pub proof fn named_audio_meters(
    base: PlanInfo,
    p: PipelineInfo,
    labels: Seq<Label>,
) -> (r: Seq<Label>)
    requires
        named(base, p, labels),
        before(labels, Stem::QueueAudio),
    ensures
        named(links::audio_meters(base, p), p, r),
{
    let done = named_meters(base, p, labels, p.inputs);
    done
        .push(plain(Stem::QueueAudioPgm))
        .push(plain(Stem::AudioconvertAudioPgm))
        .push(plain(Stem::LevelAudioPgm))
        .push(plain(Stem::FakesinkAudioPgm))
}

// ---------------------------------------------------------------------------
// Connections add no elements
// ---------------------------------------------------------------------------

pub proof fn lemma_dist_links_add_nothing(base: PlanInfo, p: PipelineInfo, n: nat)
    ensures
        links::dist_links(base, p, n).elements == base.elements,
    decreases n,
{
    if n > 0 {
        lemma_dist_links_add_nothing(base, p, (n - 1) as nat);
    }
}

pub proof fn lemma_thumb_links_add_nothing(base: PlanInfo, p: PipelineInfo, n: nat)
    ensures
        links::thumb_links(base, p, n).elements == base.elements,
    decreases n,
{
    if n > 0 {
        lemma_thumb_links_add_nothing(base, p, (n - 1) as nat);
    }
}

pub proof fn lemma_pvw_links_add_nothing(base: PlanInfo, p: PipelineInfo, n: nat)
    ensures
        links::pvw_links(base, p, n).elements == base.elements,
    decreases n,
{
    if n > 0 {
        lemma_pvw_links_add_nothing(base, p, (n - 1) as nat);
    }
}

pub proof fn lemma_cropped_dist_links_add_nothing(base: PlanInfo, p: PipelineInfo, n: nat)
    ensures
        links::cropped_dist_links(base, p, n).elements == base.elements,
    decreases n,
{
    if n > 0 {
        lemma_cropped_dist_links_add_nothing(base, p, (n - 1) as nat);
    }
}

pub proof fn lemma_cropped_pvw_links_add_nothing(base: PlanInfo, p: PipelineInfo, n: nat)
    ensures
        links::cropped_pvw_links(base, p, n).elements == base.elements,
    decreases n,
{
    if n > 0 {
        lemma_cropped_pvw_links_add_nothing(base, p, (n - 1) as nat);
    }
}

proof fn lemma_pip_row_adds_nothing(base: PlanInfo, p: PipelineInfo, pip: int, n: nat)
    ensures
        links::pip_row(base, p, pip, n).elements == base.elements,
    decreases n,
{
    if n > 0 {
        lemma_pip_row_adds_nothing(base, p, pip, (n - 1) as nat);
    }
}

pub proof fn lemma_pip_links_add_nothing(base: PlanInfo, p: PipelineInfo, n: nat)
    ensures
        links::pip_links(base, p, n).elements == base.elements,
    decreases n,
{
    if n > 0 {
        lemma_pip_links_add_nothing(base, p, (n - 1) as nat);
        lemma_pip_row_adds_nothing(
            links::pip_links(base, p, (n - 1) as nat),
            p,
            n - 1,
            p.inputs,
        );
    }
}

proof fn lemma_cropped_pip_row_adds_nothing(base: PlanInfo, p: PipelineInfo, pip: int, n: nat)
    ensures
        links::cropped_pip_row(base, p, pip, n).elements == base.elements,
    decreases n,
{
    if n > 0 {
        lemma_cropped_pip_row_adds_nothing(base, p, pip, (n - 1) as nat);
    }
}

pub proof fn lemma_cropped_pip_links_add_nothing(base: PlanInfo, p: PipelineInfo, n: nat)
    ensures
        links::cropped_pip_links(base, p, n).elements == base.elements,
    decreases n,
{
    if n > 0 {
        lemma_cropped_pip_links_add_nothing(base, p, (n - 1) as nat);
        lemma_cropped_pip_row_adds_nothing(
            links::cropped_pip_links(base, p, (n - 1) as nat),
            p,
            n - 1,
            p.inputs,
        );
    }
}

} // verus!
