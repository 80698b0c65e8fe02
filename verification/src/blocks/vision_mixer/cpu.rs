//! The mixer without a graphics processor.
//!
//! ```text
//! queue_N → videoconvert_N → (capsfilter_in_N) → tee_N → compositors
//! mixer → capsfilter_dist → tee_pgm → queue_dist_out
//! mv_comp → capsfilter_mv → tee_mv → queue_mv_out
//! ```
//!
//! The compositor has no crop of its own. Where pictures can be cropped, every
//! branch but that of the thumbnails has a `videocrop` in front of its pad.
//! With tiles, the mixer then also draws borders around the pictures in them,
//! on a pad of the programme compositor behind the downstream keys.

use crate::blocks::plan;
use crate::blocks::plan::{
    BlockPlan, ElementPlan, ElementSpec, PlanInfo, SettingInfo, SettingValue,
};
use crate::blocks::vision_mixer::links;
use crate::blocks::vision_mixer::params;
use crate::blocks::vision_mixer::params::{PipelineInfo, PipelineParams};
use vstd::prelude::*;

verus! {

/// Keeps the two compositors apart: drops old frames while the multiview is
/// still starting.
pub open spec fn leaky_queue(id: Seq<char>) -> ElementPlan {
    params::quiet_queue(id).with("leaky"@, SettingInfo::Parsed("upstream"@)).with(
        "max-size-buffers"@,
        SettingInfo::U32(1),
    )
}

fn make_leaky_queue(id: &str) -> (r: ElementSpec)
    ensures
        r@ == leaky_queue(id@),
{
    let mut e = params::make_quiet_queue(id);
    e.set("leaky", SettingValue::Parsed("upstream".to_owned()));
    e.set("max-size-buffers", SettingValue::U32(1));
    e
}

/// Programme from the compositor on.
pub open spec fn dist_output(base: PlanInfo, p: PipelineInfo) -> PlanInfo {
    let capsfilter_dist = p.id("capsfilter_dist"@);
    let tee_pgm = p.id("tee_pgm"@);
    let queue_dist_out = p.id("queue_dist_out"@);
    let queue_pgm_mv = p.id("queue_pgm_mv"@);
    let capsfilter_pgm_mv = p.id("capsfilter_pgm_mv"@);
    let mixer = p.id("mixer"@);
    base
        .add(params::capsfilter(capsfilter_dist, "capsfilter_dist"@, p.pgm_caps()))
        .add(params::tee(tee_pgm))
        .add(params::queue(queue_dist_out))
        .add(leaky_queue(queue_pgm_mv))
        .add(params::capsfilter(capsfilter_pgm_mv, "capsfilter_pgm_mv"@, p.pgm_caps()))
        .link(mixer, "src"@, capsfilter_dist, "sink"@)
        .link(capsfilter_dist, "src"@, tee_pgm, "sink"@)
        .link(tee_pgm, "src_0"@, queue_dist_out, "sink"@)
}

fn add_dist_output(parts: &mut BlockPlan, p: &PipelineParams)
    ensures
        final(parts)@ == dist_output(old(parts)@, p@),
{
    let capsfilter_dist = p.id("capsfilter_dist");
    let tee_pgm = p.id("tee_pgm");
    let queue_dist_out = p.id("queue_dist_out");
    let queue_pgm_mv = p.id("queue_pgm_mv");
    let capsfilter_pgm_mv = p.id("capsfilter_pgm_mv");
    let mixer = p.id("mixer");
    parts.add(params::make_capsfilter(capsfilter_dist.as_str(), "capsfilter_dist", p.pgm_caps()));
    parts.add(params::make_tee(tee_pgm.as_str()));
    parts.add(params::make_queue(queue_dist_out.as_str()));
    parts.add(make_leaky_queue(queue_pgm_mv.as_str()));
    parts.add(params::make_capsfilter(capsfilter_pgm_mv.as_str(), "capsfilter_pgm_mv", p.pgm_caps()));
    parts.link(mixer.as_str(), "src", capsfilter_dist.as_str(), "sink");
    parts.link(capsfilter_dist.as_str(), "src", tee_pgm.as_str(), "sink");
    parts.link(tee_pgm.as_str(), "src_0", queue_dist_out.as_str(), "sink");
}

/// A downstream key.
pub open spec fn dsk_head(base: PlanInfo, p: PipelineInfo, i: int) -> PlanInfo {
    let queue_dsk = p.idn("queue_dsk_"@, i);
    let videoconvert_dsk = p.idn("videoconvert_dsk_"@, i);
    base
        .add(params::queue(queue_dsk))
        .add(plan::plain_element(videoconvert_dsk, p.convert))
        .link(queue_dsk, "src"@, videoconvert_dsk, "sink"@)
}

fn add_dsk_head(parts: &mut BlockPlan, p: &PipelineParams, i: usize)
    ensures
        final(parts)@ == dsk_head(old(parts)@, p@, i as int),
{
    let queue_dsk = p.idn("queue_dsk_", i);
    let videoconvert_dsk = p.idn("videoconvert_dsk_", i);
    parts.add(params::make_queue(queue_dsk.as_str()));
    parts.add(ElementSpec::new(videoconvert_dsk.as_str(), p.video_convert.as_str()));
    parts.link(queue_dsk.as_str(), "src", videoconvert_dsk.as_str(), "sink");
}

/// A downstream key, in the format that is asked for.
pub open spec fn dsk_format(base: PlanInfo, p: PipelineInfo, i: int, f: Seq<char>) -> PlanInfo {
    let capsfilter_dsk = p.idn("capsfilter_dsk_"@, i);
    let videoconvert_dsk = p.idn("videoconvert_dsk_"@, i);
    base
        .add(params::capsfilter(capsfilter_dsk, plan::numbered("capsfilter_dsk_"@, i), params::format_caps(f)))
        .link(videoconvert_dsk, "src"@, capsfilter_dsk, "sink"@)
}

fn add_dsk_format(parts: &mut BlockPlan, p: &PipelineParams, i: usize, f: &str)
    ensures
        final(parts)@ == dsk_format(old(parts)@, p@, i as int, f@),
{
    let capsfilter_dsk = p.idn("capsfilter_dsk_", i);
    let videoconvert_dsk = p.idn("videoconvert_dsk_", i);
    let label = plan::numbered_name("capsfilter_dsk_", i);
    parts.add(params::make_capsfilter(capsfilter_dsk.as_str(), label.as_str(), params::make_format_caps(f)));
    parts.link(videoconvert_dsk.as_str(), "src", capsfilter_dsk.as_str(), "sink");
}

/// A downstream key, in the format that is asked for, if any.
pub open spec fn dsk_tail(base: PlanInfo, p: PipelineInfo, i: int) -> PlanInfo {
    match p.format {
        Some(f) => dsk_format(base, p, i, f),
        None => base,
    }
}

fn add_dsk_tail(parts: &mut BlockPlan, p: &PipelineParams, i: usize)
    ensures
        final(parts)@ == dsk_tail(old(parts)@, p@, i as int),
{
    match &p.output_format {
        Some(f) => add_dsk_format(parts, p, i, f.as_str()),
        None => {},
    }
}

/// A downstream key.
pub open spec fn dsk(base: PlanInfo, p: PipelineInfo, i: int) -> PlanInfo {
    let s1 = dsk_head(base, p, i);
    dsk_tail(s1, p, i)
}

fn add_dsk(parts: &mut BlockPlan, p: &PipelineParams, i: usize)
    ensures
        final(parts)@ == dsk(old(parts)@, p@, i as int),
{
    add_dsk_head(parts, p, i);
    add_dsk_tail(parts, p, i);
}

/// The first `n` downstream keys.
pub open spec fn dsks(base: PlanInfo, p: PipelineInfo, n: nat) -> PlanInfo
    decreases n,
{
    if n == 0 {
        base
    } else {
        dsk(dsks(base, p, (n - 1) as nat), p, n - 1)
    }
}

fn add_dsks(parts: &mut BlockPlan, p: &PipelineParams)
    ensures
        final(parts)@ == dsks(old(parts)@, p@, p.num_dsk_inputs as nat),
{
    let ghost before = parts@;
    let mut i: usize = 0;
    while i < p.num_dsk_inputs
        invariant
            i <= p.num_dsk_inputs,
            parts@ == dsks(before, p@, i as nat),
        decreases p.num_dsk_inputs - i,
    {
        add_dsk(parts, p, i);
        i += 1;
    }
}

/// The multiview from the compositor on.
pub open spec fn mv_output(base: PlanInfo, p: PipelineInfo) -> PlanInfo {
    let capsfilter_mv = p.id("capsfilter_mv"@);
    let tee_mv = p.id("tee_mv"@);
    let queue_mv_out = p.id("queue_mv_out"@);
    let mv_comp = p.id("mv_comp"@);
    base
        .add(params::capsfilter(capsfilter_mv, "capsfilter_mv"@, p.mv_caps()))
        .add(params::tee(tee_mv))
        .add(params::queue(queue_mv_out))
        .link(mv_comp, "src"@, capsfilter_mv, "sink"@)
        .link(capsfilter_mv, "src"@, tee_mv, "sink"@)
        .link(tee_mv, "src_0"@, queue_mv_out, "sink"@)
}

fn add_mv_output(parts: &mut BlockPlan, p: &PipelineParams)
    ensures
        final(parts)@ == mv_output(old(parts)@, p@),
{
    let capsfilter_mv = p.id("capsfilter_mv");
    let tee_mv = p.id("tee_mv");
    let queue_mv_out = p.id("queue_mv_out");
    let mv_comp = p.id("mv_comp");
    parts.add(params::make_capsfilter(capsfilter_mv.as_str(), "capsfilter_mv", p.mv_caps()));
    parts.add(params::make_tee(tee_mv.as_str()));
    parts.add(params::make_queue(queue_mv_out.as_str()));
    parts.link(mv_comp.as_str(), "src", capsfilter_mv.as_str(), "sink");
    parts.link(capsfilter_mv.as_str(), "src", tee_mv.as_str(), "sink");
    parts.link(tee_mv.as_str(), "src_0", queue_mv_out.as_str(), "sink");
}

/// What is drawn over the multiview.
pub open spec fn overlay_head(base: PlanInfo, p: PipelineInfo) -> PlanInfo {
    let appsrc_overlay = p.id("appsrc_overlay"@);
    let queue_overlay = p.id("queue_overlay"@);
    let videoconvert_overlay = p.id("videoconvert_overlay"@);
    base
        .add(params::overlay_source(appsrc_overlay))
        .add(params::queue(queue_overlay))
        .add(plan::plain_element(videoconvert_overlay, p.convert))
        .link(appsrc_overlay, "src"@, queue_overlay, "sink"@)
        .link(queue_overlay, "src"@, videoconvert_overlay, "sink"@)
}

fn add_overlay_head(parts: &mut BlockPlan, p: &PipelineParams)
    ensures
        final(parts)@ == overlay_head(old(parts)@, p@),
{
    let appsrc_overlay = p.id("appsrc_overlay");
    let queue_overlay = p.id("queue_overlay");
    let videoconvert_overlay = p.id("videoconvert_overlay");
    parts.add(params::make_overlay_source(appsrc_overlay.as_str()));
    parts.add(params::make_queue(queue_overlay.as_str()));
    parts.add(ElementSpec::new(videoconvert_overlay.as_str(), p.video_convert.as_str()));
    parts.link(appsrc_overlay.as_str(), "src", queue_overlay.as_str(), "sink");
    parts.link(queue_overlay.as_str(), "src", videoconvert_overlay.as_str(), "sink");
}

/// What is drawn over the multiview, in the format that is asked for.
pub open spec fn overlay_format(base: PlanInfo, p: PipelineInfo, f: Seq<char>) -> PlanInfo {
    let capsfilter_overlay = p.id("capsfilter_overlay"@);
    let videoconvert_overlay = p.id("videoconvert_overlay"@);
    base
        .add(params::capsfilter(capsfilter_overlay, "capsfilter_overlay"@, params::format_caps(f)))
        .link(videoconvert_overlay, "src"@, capsfilter_overlay, "sink"@)
}

fn add_overlay_format(parts: &mut BlockPlan, p: &PipelineParams, f: &str)
    ensures
        final(parts)@ == overlay_format(old(parts)@, p@, f@),
{
    let capsfilter_overlay = p.id("capsfilter_overlay");
    let videoconvert_overlay = p.id("videoconvert_overlay");
    parts.add(params::make_capsfilter(capsfilter_overlay.as_str(), "capsfilter_overlay", params::make_format_caps(f)));
    parts.link(videoconvert_overlay.as_str(), "src", capsfilter_overlay.as_str(), "sink");
}

/// What is drawn over the multiview, in the format that is asked for, if any.
pub open spec fn overlay_tail(base: PlanInfo, p: PipelineInfo) -> PlanInfo {
    match p.format {
        Some(f) => overlay_format(base, p, f),
        None => base,
    }
}

fn add_overlay_tail(parts: &mut BlockPlan, p: &PipelineParams)
    ensures
        final(parts)@ == overlay_tail(old(parts)@, p@),
{
    match &p.output_format {
        Some(f) => add_overlay_format(parts, p, f.as_str()),
        None => {},
    }
}

/// What is drawn over the multiview.
pub open spec fn overlay(base: PlanInfo, p: PipelineInfo) -> PlanInfo {
    let s1 = overlay_head(base, p);
    overlay_tail(s1, p)
}

fn add_overlay(parts: &mut BlockPlan, p: &PipelineParams)
    ensures
        final(parts)@ == overlay(old(parts)@, p@),
{
    add_overlay_head(parts, p);
    add_overlay_tail(parts, p);
}

/// What is drawn over programme.
pub open spec fn pgm_overlay_head(base: PlanInfo, p: PipelineInfo) -> PlanInfo {
    let appsrc_pgm_overlay = p.id("appsrc_pgm_overlay"@);
    let queue_pgm_overlay = p.id("queue_pgm_overlay"@);
    let videoconvert_pgm_overlay = p.id("videoconvert_pgm_overlay"@);
    base
        .add(params::overlay_source(appsrc_pgm_overlay))
        .add(params::queue(queue_pgm_overlay))
        .add(plan::plain_element(videoconvert_pgm_overlay, p.convert))
        .link(appsrc_pgm_overlay, "src"@, queue_pgm_overlay, "sink"@)
        .link(queue_pgm_overlay, "src"@, videoconvert_pgm_overlay, "sink"@)
}

fn add_pgm_overlay_head(parts: &mut BlockPlan, p: &PipelineParams)
    ensures
        final(parts)@ == pgm_overlay_head(old(parts)@, p@),
{
    let appsrc_pgm_overlay = p.id("appsrc_pgm_overlay");
    let queue_pgm_overlay = p.id("queue_pgm_overlay");
    let videoconvert_pgm_overlay = p.id("videoconvert_pgm_overlay");
    parts.add(params::make_overlay_source(appsrc_pgm_overlay.as_str()));
    parts.add(params::make_queue(queue_pgm_overlay.as_str()));
    parts.add(ElementSpec::new(videoconvert_pgm_overlay.as_str(), p.video_convert.as_str()));
    parts.link(appsrc_pgm_overlay.as_str(), "src", queue_pgm_overlay.as_str(), "sink");
    parts.link(queue_pgm_overlay.as_str(), "src", videoconvert_pgm_overlay.as_str(), "sink");
}

/// What is drawn over programme, in the format that is asked for.
pub open spec fn pgm_overlay_format(base: PlanInfo, p: PipelineInfo, f: Seq<char>) -> PlanInfo {
    let capsfilter_pgm_overlay = p.id("capsfilter_pgm_overlay"@);
    let videoconvert_pgm_overlay = p.id("videoconvert_pgm_overlay"@);
    base
        .add(params::capsfilter(capsfilter_pgm_overlay, "capsfilter_pgm_overlay"@, params::format_caps(f)))
        .link(videoconvert_pgm_overlay, "src"@, capsfilter_pgm_overlay, "sink"@)
}

fn add_pgm_overlay_format(parts: &mut BlockPlan, p: &PipelineParams, f: &str)
    ensures
        final(parts)@ == pgm_overlay_format(old(parts)@, p@, f@),
{
    let capsfilter_pgm_overlay = p.id("capsfilter_pgm_overlay");
    let videoconvert_pgm_overlay = p.id("videoconvert_pgm_overlay");
    parts.add(params::make_capsfilter(capsfilter_pgm_overlay.as_str(), "capsfilter_pgm_overlay", params::make_format_caps(f)));
    parts.link(videoconvert_pgm_overlay.as_str(), "src", capsfilter_pgm_overlay.as_str(), "sink");
}

/// What is drawn over programme, in the format that is asked for, if any.
pub open spec fn pgm_overlay_tail(base: PlanInfo, p: PipelineInfo) -> PlanInfo {
    match p.format {
        Some(f) => pgm_overlay_format(base, p, f),
        None => base,
    }
}

fn add_pgm_overlay_tail(parts: &mut BlockPlan, p: &PipelineParams)
    ensures
        final(parts)@ == pgm_overlay_tail(old(parts)@, p@),
{
    match &p.output_format {
        Some(f) => add_pgm_overlay_format(parts, p, f.as_str()),
        None => {},
    }
}

/// What is drawn over programme.
pub open spec fn pgm_overlay_parts(base: PlanInfo, p: PipelineInfo) -> PlanInfo {
    let s1 = pgm_overlay_head(base, p);
    pgm_overlay_tail(s1, p)
}

fn add_pgm_overlay_parts(parts: &mut BlockPlan, p: &PipelineParams)
    ensures
        final(parts)@ == pgm_overlay_parts(old(parts)@, p@),
{
    add_pgm_overlay_head(parts, p);
    add_pgm_overlay_tail(parts, p);
}

/// What is drawn over programme, where there are tiles.
pub open spec fn pgm_overlay(base: PlanInfo, p: PipelineInfo) -> PlanInfo {
    if p.pips > 0 {
        pgm_overlay_parts(base, p)
    } else {
        base
    }
}

fn add_pgm_overlay(parts: &mut BlockPlan, p: &PipelineParams)
    ensures
        final(parts)@ == pgm_overlay(old(parts)@, p@),
{
    if p.num_pips > 0 {
        add_pgm_overlay_parts(parts, p);
    }
}

/// An input up to where it is split.
pub open spec fn input_plain(base: PlanInfo, p: PipelineInfo, i: int) -> PlanInfo {
    let queue = p.idn("queue_"@, i);
    let videoconvert = p.idn("videoconvert_"@, i);
    let tee = p.idn("tee_"@, i);
    base
        .add(params::queue(queue))
        .add(plan::plain_element(videoconvert, p.convert))
        .add(params::tee(tee))
        .link(queue, "src"@, videoconvert, "sink"@)
        .link(videoconvert, "src"@, tee, "sink"@)
}

fn add_input_plain(parts: &mut BlockPlan, p: &PipelineParams, i: usize)
    ensures
        final(parts)@ == input_plain(old(parts)@, p@, i as int),
{
    let queue = p.idn("queue_", i);
    let videoconvert = p.idn("videoconvert_", i);
    let tee = p.idn("tee_", i);
    parts.add(params::make_queue(queue.as_str()));
    parts.add(ElementSpec::new(videoconvert.as_str(), p.video_convert.as_str()));
    parts.add(params::make_tee(tee.as_str()));
    parts.link(queue.as_str(), "src", videoconvert.as_str(), "sink");
    parts.link(videoconvert.as_str(), "src", tee.as_str(), "sink");
}

/// An input up to where it is split, in the format that is asked for.
pub open spec fn input_format(base: PlanInfo, p: PipelineInfo, i: int, f: Seq<char>) -> PlanInfo {
    let queue = p.idn("queue_"@, i);
    let videoconvert = p.idn("videoconvert_"@, i);
    let capsfilter_in = p.idn("capsfilter_in_"@, i);
    let tee = p.idn("tee_"@, i);
    base
        .add(params::queue(queue))
        .add(plan::plain_element(videoconvert, p.convert))
        .add(params::capsfilter(capsfilter_in, plan::numbered("capsfilter_in_"@, i), params::format_caps(f)))
        .add(params::tee(tee))
        .link(queue, "src"@, videoconvert, "sink"@)
        .link(videoconvert, "src"@, capsfilter_in, "sink"@)
        .link(capsfilter_in, "src"@, tee, "sink"@)
}

fn add_input_format(parts: &mut BlockPlan, p: &PipelineParams, i: usize, f: &str)
    ensures
        final(parts)@ == input_format(old(parts)@, p@, i as int, f@),
{
    let queue = p.idn("queue_", i);
    let videoconvert = p.idn("videoconvert_", i);
    let capsfilter_in = p.idn("capsfilter_in_", i);
    let tee = p.idn("tee_", i);
    let label = plan::numbered_name("capsfilter_in_", i);
    parts.add(params::make_queue(queue.as_str()));
    parts.add(ElementSpec::new(videoconvert.as_str(), p.video_convert.as_str()));
    parts.add(params::make_capsfilter(capsfilter_in.as_str(), label.as_str(), params::make_format_caps(f)));
    parts.add(params::make_tee(tee.as_str()));
    parts.link(queue.as_str(), "src", videoconvert.as_str(), "sink");
    parts.link(videoconvert.as_str(), "src", capsfilter_in.as_str(), "sink");
    parts.link(capsfilter_in.as_str(), "src", tee.as_str(), "sink");
}

/// An input up to where it is split.
pub open spec fn input_head(base: PlanInfo, p: PipelineInfo, i: int) -> PlanInfo {
    match p.format {
        Some(f) => input_format(base, p, i, f),
        None => input_plain(base, p, i),
    }
}

fn add_input_head(parts: &mut BlockPlan, p: &PipelineParams, i: usize)
    ensures
        final(parts)@ == input_head(old(parts)@, p@, i as int),
{
    match &p.output_format {
        Some(f) => add_input_format(parts, p, i, f.as_str()),
        None => add_input_plain(parts, p, i),
    }
}

/// The queues of an input behind where it is split.
pub open spec fn input_queues(base: PlanInfo, p: PipelineInfo, i: int) -> PlanInfo {
    let queue_to_dist = p.idn("queue_to_dist_"@, i);
    let queue_to_mv_thumb = p.idn("queue_to_mv_thumb_"@, i);
    let queue_to_mv_pvw = p.idn("queue_to_mv_pvw_"@, i);
    base
        .add(params::queue(queue_to_dist))
        .add(params::queue(queue_to_mv_thumb))
        .add(params::queue(queue_to_mv_pvw))
}

fn add_input_queues(parts: &mut BlockPlan, p: &PipelineParams, i: usize)
    ensures
        final(parts)@ == input_queues(old(parts)@, p@, i as int),
{
    let queue_to_dist = p.idn("queue_to_dist_", i);
    let queue_to_mv_thumb = p.idn("queue_to_mv_thumb_", i);
    let queue_to_mv_pvw = p.idn("queue_to_mv_pvw_", i);
    parts.add(params::make_queue(queue_to_dist.as_str()));
    parts.add(params::make_queue(queue_to_mv_thumb.as_str()));
    parts.add(params::make_queue(queue_to_mv_pvw.as_str()));
}

/// The crops of an input.
pub open spec fn input_crops(base: PlanInfo, p: PipelineInfo, i: int) -> PlanInfo {
    let videocrop_dist = p.idn("videocrop_dist_"@, i);
    let videocrop_pvw = p.idn("videocrop_pvw_"@, i);
    base
        .add(plan::plain_element(videocrop_dist, "videocrop"@))
        .add(plan::plain_element(videocrop_pvw, "videocrop"@))
}

fn add_input_crops(parts: &mut BlockPlan, p: &PipelineParams, i: usize)
    ensures
        final(parts)@ == input_crops(old(parts)@, p@, i as int),
{
    let videocrop_dist = p.idn("videocrop_dist_", i);
    let videocrop_pvw = p.idn("videocrop_pvw_", i);
    parts.add(ElementSpec::new(videocrop_dist.as_str(), "videocrop"));
    parts.add(ElementSpec::new(videocrop_pvw.as_str(), "videocrop"));
}

/// The queue of an input for a tile.
pub open spec fn tile_queue(base: PlanInfo, p: PipelineInfo, i: int, pip: int) -> PlanInfo {
    let queue_to_mv_pip = p.idnn("queue_to_mv_pip_"@, pip, i);
    base
        .add(params::queue(queue_to_mv_pip))
}

fn add_tile_queue(parts: &mut BlockPlan, p: &PipelineParams, i: usize, pip: usize)
    ensures
        final(parts)@ == tile_queue(old(parts)@, p@, i as int, pip as int),
{
    let queue_to_mv_pip = p.idnn("queue_to_mv_pip_", pip, i);
    parts.add(params::make_queue(queue_to_mv_pip.as_str()));
}

/// The queue and the crop of an input for a tile.
pub open spec fn cropped_tile_queue(base: PlanInfo, p: PipelineInfo, i: int, pip: int) -> PlanInfo {
    let queue_to_mv_pip = p.idnn("queue_to_mv_pip_"@, pip, i);
    let videocrop_pip = p.idnn("videocrop_pip_"@, pip, i);
    base
        .add(params::queue(queue_to_mv_pip))
        .add(plan::plain_element(videocrop_pip, "videocrop"@))
}

fn add_cropped_tile_queue(parts: &mut BlockPlan, p: &PipelineParams, i: usize, pip: usize)
    ensures
        final(parts)@ == cropped_tile_queue(old(parts)@, p@, i as int, pip as int),
{
    let queue_to_mv_pip = p.idnn("queue_to_mv_pip_", pip, i);
    let videocrop_pip = p.idnn("videocrop_pip_", pip, i);
    parts.add(params::make_queue(queue_to_mv_pip.as_str()));
    parts.add(ElementSpec::new(videocrop_pip.as_str(), "videocrop"));
}

/// The queues of an input for the first `n` tiles.
pub open spec fn tile_queues(base: PlanInfo, p: PipelineInfo, i: int, n: nat) -> PlanInfo
    decreases n,
{
    if n == 0 {
        base
    } else {
        tile_queue(tile_queues(base, p, i, (n - 1) as nat), p, i, n - 1)
    }
}

fn add_tile_queues(parts: &mut BlockPlan, p: &PipelineParams, i: usize)
    ensures
        final(parts)@ == tile_queues(old(parts)@, p@, i as int, p.num_pips as nat),
{
    let ghost before = parts@;
    let mut pip: usize = 0;
    while pip < p.num_pips
        invariant
            pip <= p.num_pips,
            parts@ == tile_queues(before, p@, i as int, pip as nat),
        decreases p.num_pips - pip,
    {
        add_tile_queue(parts, p, i, pip);
        pip += 1;
    }
}

/// The queues and crops of an input for the first `n` tiles.
pub open spec fn cropped_tile_queues(base: PlanInfo, p: PipelineInfo, i: int, n: nat) -> PlanInfo
    decreases n,
{
    if n == 0 {
        base
    } else {
        cropped_tile_queue(cropped_tile_queues(base, p, i, (n - 1) as nat), p, i, n - 1)
    }
}

fn add_cropped_tile_queues(parts: &mut BlockPlan, p: &PipelineParams, i: usize)
    ensures
        final(parts)@ == cropped_tile_queues(old(parts)@, p@, i as int, p.num_pips as nat),
{
    let ghost before = parts@;
    let mut pip: usize = 0;
    while pip < p.num_pips
        invariant
            pip <= p.num_pips,
            parts@ == cropped_tile_queues(before, p@, i as int, pip as nat),
        decreases p.num_pips - pip,
    {
        add_cropped_tile_queue(parts, p, i, pip);
        pip += 1;
    }
}

/// An input.
pub open spec fn input(base: PlanInfo, p: PipelineInfo, i: int) -> PlanInfo {
    let s1 = input_head(base, p, i);
    let s2 = input_queues(s1, p, i);
    tile_queues(s2, p, i, p.pips)
}

fn add_input(parts: &mut BlockPlan, p: &PipelineParams, i: usize)
    ensures
        final(parts)@ == input(old(parts)@, p@, i as int),
{
    add_input_head(parts, p, i);
    add_input_queues(parts, p, i);
    add_tile_queues(parts, p, i);
}

/// The first `n` inputs.
pub open spec fn inputs(base: PlanInfo, p: PipelineInfo, n: nat) -> PlanInfo
    decreases n,
{
    if n == 0 {
        base
    } else {
        input(inputs(base, p, (n - 1) as nat), p, n - 1)
    }
}

fn add_inputs(parts: &mut BlockPlan, p: &PipelineParams)
    ensures
        final(parts)@ == inputs(old(parts)@, p@, p.num_inputs as nat),
{
    let ghost before = parts@;
    let mut i: usize = 0;
    while i < p.num_inputs
        invariant
            i <= p.num_inputs,
            parts@ == inputs(before, p@, i as nat),
        decreases p.num_inputs - i,
    {
        add_input(parts, p, i);
        i += 1;
    }
}

/// An input that can be cropped.
pub open spec fn cropped_input(base: PlanInfo, p: PipelineInfo, i: int) -> PlanInfo {
    let s1 = input_head(base, p, i);
    let s2 = input_queues(s1, p, i);
    let s3 = input_crops(s2, p, i);
    cropped_tile_queues(s3, p, i, p.pips)
}

fn add_cropped_input(parts: &mut BlockPlan, p: &PipelineParams, i: usize)
    ensures
        final(parts)@ == cropped_input(old(parts)@, p@, i as int),
{
    add_input_head(parts, p, i);
    add_input_queues(parts, p, i);
    add_input_crops(parts, p, i);
    add_cropped_tile_queues(parts, p, i);
}

/// The first `n` inputs, which can be cropped.
pub open spec fn cropped_inputs(base: PlanInfo, p: PipelineInfo, n: nat) -> PlanInfo
    decreases n,
{
    if n == 0 {
        base
    } else {
        cropped_input(cropped_inputs(base, p, (n - 1) as nat), p, n - 1)
    }
}

fn add_cropped_inputs(parts: &mut BlockPlan, p: &PipelineParams)
    ensures
        final(parts)@ == cropped_inputs(old(parts)@, p@, p.num_inputs as nat),
{
    let ghost before = parts@;
    let mut i: usize = 0;
    while i < p.num_inputs
        invariant
            i <= p.num_inputs,
            parts@ == cropped_inputs(before, p@, i as nat),
        decreases p.num_inputs - i,
    {
        add_cropped_input(parts, p, i);
        i += 1;
    }
}

/// The name of the last element of a branch: the one that fixes the format,
/// where one is asked for.
pub open spec fn last_of(p: PipelineInfo, fixed: Seq<char>, free: Seq<char>) -> Seq<char> {
    if p.format is Some {
        fixed
    } else {
        free
    }
}

fn last_name(p: &PipelineParams, fixed: &str, free: &str) -> (r: String)
    ensures
        r@ == last_of(p@, fixed@, free@),
{
    match &p.output_format {
        Some(_) => fixed.to_owned(),
        None => free.to_owned(),
    }
}

/// A downstream key on its way to the programme compositor.
pub open spec fn dsk_link(base: PlanInfo, p: PipelineInfo, i: int) -> PlanInfo {
    let last = last_of(p, p.idn("capsfilter_dsk_"@, i), p.idn("videoconvert_dsk_"@, i));
    base.link(
        last,
        "src"@,
        p.id("mixer"@),
        plan::numbered("sink_"@, params::dsk_pad(p.inputs, i)),
    )
}

fn add_dsk_link(parts: &mut BlockPlan, p: &PipelineParams, i: usize)
    requires
        p@.fits(),
        i < p.num_dsk_inputs,
    ensures
        final(parts)@ == dsk_link(old(parts)@, p@, i as int),
{
    let fixed = p.idn("capsfilter_dsk_", i);
    let free = p.idn("videoconvert_dsk_", i);
    let last = last_name(p, fixed.as_str(), free.as_str());
    let mixer = p.id("mixer");
    let pad = plan::numbered_name("sink_", p.num_inputs + i);
    parts.link(last.as_str(), "src", mixer.as_str(), pad.as_str());
}

/// The first `n` downstream keys on their way to the programme compositor.
pub open spec fn dsk_links(base: PlanInfo, p: PipelineInfo, n: nat) -> PlanInfo
    decreases n,
{
    if n == 0 {
        base
    } else {
        dsk_link(dsk_links(base, p, (n - 1) as nat), p, n - 1)
    }
}

fn add_dsk_links(parts: &mut BlockPlan, p: &PipelineParams)
    requires
        p@.fits(),
    ensures
        final(parts)@ == dsk_links(old(parts)@, p@, p.num_dsk_inputs as nat),
{
    let ghost before = parts@;
    let mut i: usize = 0;
    while i < p.num_dsk_inputs
        invariant
            i <= p.num_dsk_inputs,
            p@.fits(),
            parts@ == dsk_links(before, p@, i as nat),
        decreases p.num_dsk_inputs - i,
    {
        add_dsk_link(parts, p, i);
        i += 1;
    }
}

/// What is drawn over programme on its way to the programme compositor, behind
/// the downstream keys.
pub open spec fn pgm_overlay_link(base: PlanInfo, p: PipelineInfo) -> PlanInfo {
    if p.pips > 0 {
        base.link(
            last_of(p, p.id("capsfilter_pgm_overlay"@), p.id("videoconvert_pgm_overlay"@)),
            "src"@,
            p.id("mixer"@),
            plan::numbered("sink_"@, (p.inputs + p.dsks) as int),
        )
    } else {
        base
    }
}

fn add_pgm_overlay_link(parts: &mut BlockPlan, p: &PipelineParams)
    requires
        p@.fits(),
    ensures
        final(parts)@ == pgm_overlay_link(old(parts)@, p@),
{
    if p.num_pips > 0 {
        let fixed = p.id("capsfilter_pgm_overlay");
        let free = p.id("videoconvert_pgm_overlay");
        let last = last_name(p, fixed.as_str(), free.as_str());
        let mixer = p.id("mixer");
        let pad = plan::numbered_name("sink_", p.num_inputs + p.num_dsk_inputs);
        parts.link(last.as_str(), "src", mixer.as_str(), pad.as_str());
    }
}

/// What is drawn over the multiview on its way to the multiview compositor.
pub open spec fn overlay_link(base: PlanInfo, p: PipelineInfo) -> PlanInfo {
    base.link(
        last_of(p, p.id("capsfilter_overlay"@), p.id("videoconvert_overlay"@)),
        "src"@,
        p.id("mv_comp"@),
        plan::numbered("sink_"@, params::overlay_pad(p.inputs, p.pips)),
    )
}

fn add_overlay_link(parts: &mut BlockPlan, p: &PipelineParams)
    requires
        p@.fits(),
    ensures
        final(parts)@ == overlay_link(old(parts)@, p@),
{
    let fixed = p.id("capsfilter_overlay");
    let free = p.id("videoconvert_overlay");
    let last = last_name(p, fixed.as_str(), free.as_str());
    let mv_comp = p.id("mv_comp");
    let pad = plan::numbered_name(
        "sink_",
        params::overlay_pad_index(p.num_inputs, p.num_pips),
    );
    parts.link(last.as_str(), "src", mv_comp.as_str(), pad.as_str());
}

/// Programme on its way to the multiview.
pub open spec fn pgm_link(base: PlanInfo, p: PipelineInfo) -> PlanInfo {
    let tee_pgm = p.id("tee_pgm"@);
    let queue_pgm_mv = p.id("queue_pgm_mv"@);
    let capsfilter_pgm_mv = p.id("capsfilter_pgm_mv"@);
    let mv_comp = p.id("mv_comp"@);
    base
        .link(tee_pgm, "src_1"@, queue_pgm_mv, "sink"@)
        .link(queue_pgm_mv, "src"@, capsfilter_pgm_mv, "sink"@)
        .link(capsfilter_pgm_mv, "src"@, mv_comp, plan::numbered("sink_"@, params::pgm_pad(p.inputs)))
}

fn add_pgm_link(parts: &mut BlockPlan, p: &PipelineParams)
    ensures
        final(parts)@ == pgm_link(old(parts)@, p@),
{
    let tee_pgm = p.id("tee_pgm");
    let queue_pgm_mv = p.id("queue_pgm_mv");
    let capsfilter_pgm_mv = p.id("capsfilter_pgm_mv");
    let mv_comp = p.id("mv_comp");
    parts.link(tee_pgm.as_str(), "src_1", queue_pgm_mv.as_str(), "sink");
    parts.link(queue_pgm_mv.as_str(), "src", capsfilter_pgm_mv.as_str(), "sink");
    let pad = plan::numbered_name("sink_", p.num_inputs);
    parts.link(capsfilter_pgm_mv.as_str(), "src", mv_comp.as_str(), pad.as_str());
}

/// Both outputs, the downstream keys and the overlay of the multiview.
pub open spec fn outputs(base: PlanInfo, p: PipelineInfo) -> PlanInfo {
    let s1 = dist_output(base, p);
    let s2 = dsks(s1, p, p.dsks);
    let s3 = mv_output(s2, p);
    overlay(s3, p)
}

fn add_outputs(parts: &mut BlockPlan, p: &PipelineParams)
    ensures
        final(parts)@ == outputs(old(parts)@, p@),
{
    add_dist_output(parts, p);
    add_dsks(parts, p);
    add_mv_output(parts, p);
    add_overlay(parts, p);
}

/// The connections to the compositors.
pub open spec fn connections(base: PlanInfo, p: PipelineInfo) -> PlanInfo {
    let s1 = links::dist_links(base, p, p.inputs);
    let s2 = dsk_links(s1, p, p.dsks);
    let s3 = links::thumb_links(s2, p, p.inputs);
    let s4 = links::pvw_links(s3, p, p.inputs);
    let s5 = links::pip_links(s4, p, p.pips);
    let s6 = overlay_link(s5, p);
    pgm_link(s6, p)
}

fn add_connections(parts: &mut BlockPlan, p: &PipelineParams)
    requires
        p@.fits(),
    ensures
        final(parts)@ == connections(old(parts)@, p@),
{
    links::add_dist_links(parts, p);
    add_dsk_links(parts, p);
    links::add_thumb_links(parts, p);
    links::add_pvw_links(parts, p);
    links::add_pip_links(parts, p);
    add_overlay_link(parts, p);
    add_pgm_link(parts, p);
}

/// The connections to the compositors, through the crops.
pub open spec fn cropped_connections(base: PlanInfo, p: PipelineInfo) -> PlanInfo {
    let s1 = links::cropped_dist_links(base, p, p.inputs);
    let s2 = dsk_links(s1, p, p.dsks);
    let s3 = pgm_overlay_link(s2, p);
    let s4 = links::thumb_links(s3, p, p.inputs);
    let s5 = links::cropped_pvw_links(s4, p, p.inputs);
    let s6 = links::cropped_pip_links(s5, p, p.pips);
    let s7 = overlay_link(s6, p);
    pgm_link(s7, p)
}

fn add_cropped_connections(parts: &mut BlockPlan, p: &PipelineParams)
    requires
        p@.fits(),
    ensures
        final(parts)@ == cropped_connections(old(parts)@, p@),
{
    links::add_cropped_dist_links(parts, p);
    add_dsk_links(parts, p);
    add_pgm_overlay_link(parts, p);
    links::add_thumb_links(parts, p);
    links::add_cropped_pvw_links(parts, p);
    links::add_cropped_pip_links(parts, p);
    add_overlay_link(parts, p);
    add_pgm_link(parts, p);
}

/// What the mixer is built of, where pictures cannot be cropped.
pub open spec fn plain_cpu_plan(p: PipelineInfo) -> PlanInfo {
    let with_inputs = inputs(outputs(params::compositors(p), p), p, p.inputs);
    links::audio_meters(connections(with_inputs, p), p)
}

/// What the mixer is built of, where pictures can be cropped and have borders.
pub open spec fn cpu_plan(p: PipelineInfo) -> PlanInfo {
    let with_overlays = pgm_overlay(outputs(params::compositors(p), p), p);
    let with_inputs = cropped_inputs(with_overlays, p, p.inputs);
    links::audio_meters(cropped_connections(with_inputs, p), p)
}

/// What the mixer is built of, where pictures cannot be cropped.
pub fn build_plain_cpu_pipeline(p: &PipelineParams) -> (r: BlockPlan)
    requires
        p@.fits(),
    ensures
        r@ == plain_cpu_plan(p@),
{
    let mut parts = params::make_compositors(p);
    add_outputs(&mut parts, p);
    add_inputs(&mut parts, p);
    add_connections(&mut parts, p);
    links::append_audio_meter_chains(&mut parts, p);
    parts
}

/// What the mixer is built of, where pictures can be cropped and have borders.
pub fn build_cpu_pipeline(p: &PipelineParams) -> (r: BlockPlan)
    requires
        p@.fits(),
    ensures
        r@ == cpu_plan(p@),
{
    let mut parts = params::make_compositors(p);
    add_outputs(&mut parts, p);
    add_pgm_overlay(&mut parts, p);
    add_cropped_inputs(&mut parts, p);
    add_cropped_connections(&mut parts, p);
    links::append_audio_meter_chains(&mut parts, p);
    parts
}

} // verus!
