//! The mixer on the graphics processor.
//!
//! ```text
//! queue_N → glupload_N → glcolorconvert_N → tee_N → compositors
//! mixer → queue_post_dist → tee_pgm → (gldownload_dist) → capsfilter_dist → queue_dist_out
//! mv_comp → queue_post_mv → (gldownload_mv) → capsfilter_mv → tee_mv → queue_mv_out
//! ```
//!
//! The pads of a compositor come into being one after the other as they are
//! connected, so that the order of the connections decides their numbers.

use crate::blocks::plan;
use crate::blocks::plan::{BlockPlan, ElementSpec, PlanInfo};
use crate::blocks::vision_mixer::links;
use crate::blocks::vision_mixer::params;
use crate::blocks::vision_mixer::params::{PipelineInfo, PipelineParams};
use vstd::prelude::*;

verus! {

/// Programme from the compositor on.
pub open spec fn dist_head(base: PlanInfo, p: PipelineInfo) -> PlanInfo {
    let queue_post_dist = p.id("queue_post_dist"@);
    let tee_pgm = p.id("tee_pgm"@);
    let queue_dist_out = p.id("queue_dist_out"@);
    let mixer = p.id("mixer"@);
    base
        .add(params::queue(queue_post_dist))
        .add(params::tee(tee_pgm))
        .add(params::queue(queue_dist_out))
        .link(mixer, "src"@, queue_post_dist, "sink"@)
        .link(queue_post_dist, "src"@, tee_pgm, "sink"@)
}

fn add_dist_head(parts: &mut BlockPlan, p: &PipelineParams)
    ensures
        final(parts)@ == dist_head(old(parts)@, p@),
{
    let queue_post_dist = p.id("queue_post_dist");
    let tee_pgm = p.id("tee_pgm");
    let queue_dist_out = p.id("queue_dist_out");
    let mixer = p.id("mixer");
    parts.add(params::make_queue(queue_post_dist.as_str()));
    parts.add(params::make_tee(tee_pgm.as_str()));
    parts.add(params::make_queue(queue_dist_out.as_str()));
    parts.link(mixer.as_str(), "src", queue_post_dist.as_str(), "sink");
    parts.link(queue_post_dist.as_str(), "src", tee_pgm.as_str(), "sink");
}

/// Programme, taken out of graphics memory.
pub open spec fn dist_download(base: PlanInfo, p: PipelineInfo) -> PlanInfo {
    let gldownload_dist = p.id("gldownload_dist"@);
    let capsfilter_dist = p.id("capsfilter_dist"@);
    let tee_pgm = p.id("tee_pgm"@);
    let queue_dist_out = p.id("queue_dist_out"@);
    base
        .add(plan::plain_element(gldownload_dist, "gldownload"@))
        .add(params::capsfilter(capsfilter_dist, "capsfilter_dist"@, p.pgm_caps()))
        .link(tee_pgm, "src_0"@, gldownload_dist, "sink"@)
        .link(gldownload_dist, "src"@, capsfilter_dist, "sink"@)
        .link(capsfilter_dist, "src"@, queue_dist_out, "sink"@)
}

fn add_dist_download(parts: &mut BlockPlan, p: &PipelineParams)
    ensures
        final(parts)@ == dist_download(old(parts)@, p@),
{
    let gldownload_dist = p.id("gldownload_dist");
    let capsfilter_dist = p.id("capsfilter_dist");
    let tee_pgm = p.id("tee_pgm");
    let queue_dist_out = p.id("queue_dist_out");
    parts.add(ElementSpec::new(gldownload_dist.as_str(), "gldownload"));
    parts.add(params::make_capsfilter(capsfilter_dist.as_str(), "capsfilter_dist", p.pgm_caps()));
    parts.link(tee_pgm.as_str(), "src_0", gldownload_dist.as_str(), "sink");
    parts.link(gldownload_dist.as_str(), "src", capsfilter_dist.as_str(), "sink");
    parts.link(capsfilter_dist.as_str(), "src", queue_dist_out.as_str(), "sink");
}

/// Programme, left in graphics memory.
pub open spec fn dist_glmem(base: PlanInfo, p: PipelineInfo) -> PlanInfo {
    let capsfilter_dist = p.id("capsfilter_dist"@);
    let tee_pgm = p.id("tee_pgm"@);
    let queue_dist_out = p.id("queue_dist_out"@);
    base
        .add(params::text_capsfilter(capsfilter_dist, "capsfilter_dist"@, p.pgm_caps_glmem()))
        .link(tee_pgm, "src_0"@, capsfilter_dist, "sink"@)
        .link(capsfilter_dist, "src"@, queue_dist_out, "sink"@)
}

fn add_dist_glmem(parts: &mut BlockPlan, p: &PipelineParams)
    ensures
        final(parts)@ == dist_glmem(old(parts)@, p@),
{
    let capsfilter_dist = p.id("capsfilter_dist");
    let tee_pgm = p.id("tee_pgm");
    let queue_dist_out = p.id("queue_dist_out");
    parts.add(params::make_text_capsfilter(capsfilter_dist.as_str(), "capsfilter_dist", p.pgm_caps_glmem()));
    parts.link(tee_pgm.as_str(), "src_0", capsfilter_dist.as_str(), "sink");
    parts.link(capsfilter_dist.as_str(), "src", queue_dist_out.as_str(), "sink");
}

/// Programme on its way out.
pub open spec fn dist_tail(base: PlanInfo, p: PipelineInfo) -> PlanInfo {
    if p.gl_download {
        dist_download(base, p)
    } else {
        dist_glmem(base, p)
    }
}

fn add_dist_tail(parts: &mut BlockPlan, p: &PipelineParams)
    ensures
        final(parts)@ == dist_tail(old(parts)@, p@),
{
    if p.gl_download {
        add_dist_download(parts, p);
    } else {
        add_dist_glmem(parts, p);
    }
}

/// Keeps the two compositors apart.
pub open spec fn pgm_queue(base: PlanInfo, p: PipelineInfo) -> PlanInfo {
    let queue_pgm_mv = p.id("queue_pgm_mv"@);
    base
        .add(params::quiet_queue(queue_pgm_mv))
}

fn add_pgm_queue(parts: &mut BlockPlan, p: &PipelineParams)
    ensures
        final(parts)@ == pgm_queue(old(parts)@, p@),
{
    let queue_pgm_mv = p.id("queue_pgm_mv");
    parts.add(params::make_quiet_queue(queue_pgm_mv.as_str()));
}

/// A downstream key.
pub open spec fn dsk(base: PlanInfo, p: PipelineInfo, i: int) -> PlanInfo {
    let queue_dsk = p.idn("queue_dsk_"@, i);
    let glupload_dsk = p.idn("glupload_dsk_"@, i);
    let glcolorconvert_dsk = p.idn("glcolorconvert_dsk_"@, i);
    base
        .add(params::queue(queue_dsk))
        .add(plan::plain_element(glupload_dsk, "glupload"@))
        .add(plan::plain_element(glcolorconvert_dsk, "glcolorconvert"@))
        .link(queue_dsk, "src"@, glupload_dsk, "sink"@)
        .link(glupload_dsk, "src"@, glcolorconvert_dsk, "sink"@)
}

fn add_dsk(parts: &mut BlockPlan, p: &PipelineParams, i: usize)
    ensures
        final(parts)@ == dsk(old(parts)@, p@, i as int),
{
    let queue_dsk = p.idn("queue_dsk_", i);
    let glupload_dsk = p.idn("glupload_dsk_", i);
    let glcolorconvert_dsk = p.idn("glcolorconvert_dsk_", i);
    parts.add(params::make_queue(queue_dsk.as_str()));
    parts.add(ElementSpec::new(glupload_dsk.as_str(), "glupload"));
    parts.add(ElementSpec::new(glcolorconvert_dsk.as_str(), "glcolorconvert"));
    parts.link(queue_dsk.as_str(), "src", glupload_dsk.as_str(), "sink");
    parts.link(glupload_dsk.as_str(), "src", glcolorconvert_dsk.as_str(), "sink");
}

/// The first `n` downstream keys.
pub open spec fn dsks(base: PlanInfo, p: PipelineInfo, n: nat) -> PlanInfo
    decreases n,
{
    if n == 0 {
        base
    } else {
        dsk(dsks(base, p, (n - 1) as nat), p, n - 1)
    }
}

fn add_dsks(parts: &mut BlockPlan, p: &PipelineParams)
    ensures
        final(parts)@ == dsks(old(parts)@, p@, p.num_dsk_inputs as nat),
{
    let ghost before = parts@;
    let mut i: usize = 0;
    while i < p.num_dsk_inputs
        invariant
            i <= p.num_dsk_inputs,
            parts@ == dsks(before, p@, i as nat),
        decreases p.num_dsk_inputs - i,
    {
        add_dsk(parts, p, i);
        i += 1;
    }
}

/// The multiview from the compositor on.
pub open spec fn mv_head(base: PlanInfo, p: PipelineInfo) -> PlanInfo {
    let queue_post_mv = p.id("queue_post_mv"@);
    let tee_mv = p.id("tee_mv"@);
    let queue_mv_out = p.id("queue_mv_out"@);
    let mv_comp = p.id("mv_comp"@);
    base
        .add(params::queue(queue_post_mv))
        .add(params::tee(tee_mv))
        .add(params::queue(queue_mv_out))
        .link(mv_comp, "src"@, queue_post_mv, "sink"@)
}

fn add_mv_head(parts: &mut BlockPlan, p: &PipelineParams)
    ensures
        final(parts)@ == mv_head(old(parts)@, p@),
{
    let queue_post_mv = p.id("queue_post_mv");
    let tee_mv = p.id("tee_mv");
    let queue_mv_out = p.id("queue_mv_out");
    let mv_comp = p.id("mv_comp");
    parts.add(params::make_queue(queue_post_mv.as_str()));
    parts.add(params::make_tee(tee_mv.as_str()));
    parts.add(params::make_queue(queue_mv_out.as_str()));
    parts.link(mv_comp.as_str(), "src", queue_post_mv.as_str(), "sink");
}

/// The multiview, taken out of graphics memory.
pub open spec fn mv_download(base: PlanInfo, p: PipelineInfo) -> PlanInfo {
    let gldownload_mv = p.id("gldownload_mv"@);
    let capsfilter_mv = p.id("capsfilter_mv"@);
    let queue_post_mv = p.id("queue_post_mv"@);
    let tee_mv = p.id("tee_mv"@);
    base
        .add(plan::plain_element(gldownload_mv, "gldownload"@))
        .add(params::capsfilter(capsfilter_mv, "capsfilter_mv"@, p.mv_caps()))
        .link(queue_post_mv, "src"@, gldownload_mv, "sink"@)
        .link(gldownload_mv, "src"@, capsfilter_mv, "sink"@)
        .link(capsfilter_mv, "src"@, tee_mv, "sink"@)
}

fn add_mv_download(parts: &mut BlockPlan, p: &PipelineParams)
    ensures
        final(parts)@ == mv_download(old(parts)@, p@),
{
    let gldownload_mv = p.id("gldownload_mv");
    let capsfilter_mv = p.id("capsfilter_mv");
    let queue_post_mv = p.id("queue_post_mv");
    let tee_mv = p.id("tee_mv");
    parts.add(ElementSpec::new(gldownload_mv.as_str(), "gldownload"));
    parts.add(params::make_capsfilter(capsfilter_mv.as_str(), "capsfilter_mv", p.mv_caps()));
    parts.link(queue_post_mv.as_str(), "src", gldownload_mv.as_str(), "sink");
    parts.link(gldownload_mv.as_str(), "src", capsfilter_mv.as_str(), "sink");
    parts.link(capsfilter_mv.as_str(), "src", tee_mv.as_str(), "sink");
}

/// The multiview, left in graphics memory.
pub open spec fn mv_glmem(base: PlanInfo, p: PipelineInfo) -> PlanInfo {
    let capsfilter_mv = p.id("capsfilter_mv"@);
    let queue_post_mv = p.id("queue_post_mv"@);
    let tee_mv = p.id("tee_mv"@);
    base
        .add(params::text_capsfilter(capsfilter_mv, "capsfilter_mv"@, p.mv_caps_glmem()))
        .link(queue_post_mv, "src"@, capsfilter_mv, "sink"@)
        .link(capsfilter_mv, "src"@, tee_mv, "sink"@)
}

fn add_mv_glmem(parts: &mut BlockPlan, p: &PipelineParams)
    ensures
        final(parts)@ == mv_glmem(old(parts)@, p@),
{
    let capsfilter_mv = p.id("capsfilter_mv");
    let queue_post_mv = p.id("queue_post_mv");
    let tee_mv = p.id("tee_mv");
    parts.add(params::make_text_capsfilter(capsfilter_mv.as_str(), "capsfilter_mv", p.mv_caps_glmem()));
    parts.link(queue_post_mv.as_str(), "src", capsfilter_mv.as_str(), "sink");
    parts.link(capsfilter_mv.as_str(), "src", tee_mv.as_str(), "sink");
}

/// The multiview on its way out.
pub open spec fn mv_tail(base: PlanInfo, p: PipelineInfo) -> PlanInfo {
    if p.gl_download {
        mv_download(base, p)
    } else {
        mv_glmem(base, p)
    }
}

fn add_mv_tail(parts: &mut BlockPlan, p: &PipelineParams)
    ensures
        final(parts)@ == mv_tail(old(parts)@, p@),
{
    if p.gl_download {
        add_mv_download(parts, p);
    } else {
        add_mv_glmem(parts, p);
    }
}

/// The end of the multiview, and what is drawn over it.
pub open spec fn mv_out(base: PlanInfo, p: PipelineInfo) -> PlanInfo {
    let appsrc_overlay = p.id("appsrc_overlay"@);
    let queue_overlay = p.id("queue_overlay"@);
    let glupload_overlay = p.id("glupload_overlay"@);
    let tee_mv = p.id("tee_mv"@);
    let queue_mv_out = p.id("queue_mv_out"@);
    base
        .add(params::overlay_source(appsrc_overlay))
        .add(params::queue(queue_overlay))
        .add(plan::plain_element(glupload_overlay, "glupload"@))
        .link(tee_mv, "src_0"@, queue_mv_out, "sink"@)
        .link(appsrc_overlay, "src"@, queue_overlay, "sink"@)
        .link(queue_overlay, "src"@, glupload_overlay, "sink"@)
}

fn add_mv_out(parts: &mut BlockPlan, p: &PipelineParams)
    ensures
        final(parts)@ == mv_out(old(parts)@, p@),
{
    let appsrc_overlay = p.id("appsrc_overlay");
    let queue_overlay = p.id("queue_overlay");
    let glupload_overlay = p.id("glupload_overlay");
    let tee_mv = p.id("tee_mv");
    let queue_mv_out = p.id("queue_mv_out");
    parts.add(params::make_overlay_source(appsrc_overlay.as_str()));
    parts.add(params::make_queue(queue_overlay.as_str()));
    parts.add(ElementSpec::new(glupload_overlay.as_str(), "glupload"));
    parts.link(tee_mv.as_str(), "src_0", queue_mv_out.as_str(), "sink");
    parts.link(appsrc_overlay.as_str(), "src", queue_overlay.as_str(), "sink");
    parts.link(queue_overlay.as_str(), "src", glupload_overlay.as_str(), "sink");
}

/// An input up to where it is split.
pub open spec fn input_head(base: PlanInfo, p: PipelineInfo, i: int) -> PlanInfo {
    let queue = p.idn("queue_"@, i);
    let glupload = p.idn("glupload_"@, i);
    let glcolorconvert = p.idn("glcolorconvert_"@, i);
    let tee = p.idn("tee_"@, i);
    let queue_to_dist = p.idn("queue_to_dist_"@, i);
    let queue_to_mv_thumb = p.idn("queue_to_mv_thumb_"@, i);
    let queue_to_mv_pvw = p.idn("queue_to_mv_pvw_"@, i);
    base
        .add(params::queue(queue))
        .add(plan::plain_element(glupload, "glupload"@))
        .add(plan::plain_element(glcolorconvert, "glcolorconvert"@))
        .add(params::tee(tee))
        .add(params::queue(queue_to_dist))
        .add(params::queue(queue_to_mv_thumb))
        .add(params::queue(queue_to_mv_pvw))
}

fn add_input_head(parts: &mut BlockPlan, p: &PipelineParams, i: usize)
    ensures
        final(parts)@ == input_head(old(parts)@, p@, i as int),
{
    let queue = p.idn("queue_", i);
    let glupload = p.idn("glupload_", i);
    let glcolorconvert = p.idn("glcolorconvert_", i);
    let tee = p.idn("tee_", i);
    let queue_to_dist = p.idn("queue_to_dist_", i);
    let queue_to_mv_thumb = p.idn("queue_to_mv_thumb_", i);
    let queue_to_mv_pvw = p.idn("queue_to_mv_pvw_", i);
    parts.add(params::make_queue(queue.as_str()));
    parts.add(ElementSpec::new(glupload.as_str(), "glupload"));
    parts.add(ElementSpec::new(glcolorconvert.as_str(), "glcolorconvert"));
    parts.add(params::make_tee(tee.as_str()));
    parts.add(params::make_queue(queue_to_dist.as_str()));
    parts.add(params::make_queue(queue_to_mv_thumb.as_str()));
    parts.add(params::make_queue(queue_to_mv_pvw.as_str()));
}

/// The queue of an input for a tile.
pub open spec fn tile_queue(base: PlanInfo, p: PipelineInfo, i: int, pip: int) -> PlanInfo {
    let queue_to_mv_pip = p.idnn("queue_to_mv_pip_"@, pip, i);
    base
        .add(params::queue(queue_to_mv_pip))
}

fn add_tile_queue(parts: &mut BlockPlan, p: &PipelineParams, i: usize, pip: usize)
    ensures
        final(parts)@ == tile_queue(old(parts)@, p@, i as int, pip as int),
{
    let queue_to_mv_pip = p.idnn("queue_to_mv_pip_", pip, i);
    parts.add(params::make_queue(queue_to_mv_pip.as_str()));
}

/// The queues of an input for the first `n` tiles.
pub open spec fn tile_queues(base: PlanInfo, p: PipelineInfo, i: int, n: nat) -> PlanInfo
    decreases n,
{
    if n == 0 {
        base
    } else {
        tile_queue(tile_queues(base, p, i, (n - 1) as nat), p, i, n - 1)
    }
}

fn add_tile_queues(parts: &mut BlockPlan, p: &PipelineParams, i: usize)
    ensures
        final(parts)@ == tile_queues(old(parts)@, p@, i as int, p.num_pips as nat),
{
    let ghost before = parts@;
    let mut pip: usize = 0;
    while pip < p.num_pips
        invariant
            pip <= p.num_pips,
            parts@ == tile_queues(before, p@, i as int, pip as nat),
        decreases p.num_pips - pip,
    {
        add_tile_queue(parts, p, i, pip);
        pip += 1;
    }
}

/// The connections of an input up to where it is split.
pub open spec fn input_links(base: PlanInfo, p: PipelineInfo, i: int) -> PlanInfo {
    let queue = p.idn("queue_"@, i);
    let glupload = p.idn("glupload_"@, i);
    let glcolorconvert = p.idn("glcolorconvert_"@, i);
    let tee = p.idn("tee_"@, i);
    base
        .link(queue, "src"@, glupload, "sink"@)
        .link(glupload, "src"@, glcolorconvert, "sink"@)
        .link(glcolorconvert, "src"@, tee, "sink"@)
}

fn add_input_links(parts: &mut BlockPlan, p: &PipelineParams, i: usize)
    ensures
        final(parts)@ == input_links(old(parts)@, p@, i as int),
{
    let queue = p.idn("queue_", i);
    let glupload = p.idn("glupload_", i);
    let glcolorconvert = p.idn("glcolorconvert_", i);
    let tee = p.idn("tee_", i);
    parts.link(queue.as_str(), "src", glupload.as_str(), "sink");
    parts.link(glupload.as_str(), "src", glcolorconvert.as_str(), "sink");
    parts.link(glcolorconvert.as_str(), "src", tee.as_str(), "sink");
}

/// An input.
pub open spec fn input(base: PlanInfo, p: PipelineInfo, i: int) -> PlanInfo {
    let s1 = input_head(base, p, i);
    let s2 = tile_queues(s1, p, i, p.pips);
    input_links(s2, p, i)
}

fn add_input(parts: &mut BlockPlan, p: &PipelineParams, i: usize)
    ensures
        final(parts)@ == input(old(parts)@, p@, i as int),
{
    add_input_head(parts, p, i);
    add_tile_queues(parts, p, i);
    add_input_links(parts, p, i);
}

/// The first `n` inputs.
pub open spec fn inputs(base: PlanInfo, p: PipelineInfo, n: nat) -> PlanInfo
    decreases n,
{
    if n == 0 {
        base
    } else {
        input(inputs(base, p, (n - 1) as nat), p, n - 1)
    }
}

fn add_inputs(parts: &mut BlockPlan, p: &PipelineParams)
    ensures
        final(parts)@ == inputs(old(parts)@, p@, p.num_inputs as nat),
{
    let ghost before = parts@;
    let mut i: usize = 0;
    while i < p.num_inputs
        invariant
            i <= p.num_inputs,
            parts@ == inputs(before, p@, i as nat),
        decreases p.num_inputs - i,
    {
        add_input(parts, p, i);
        i += 1;
    }
}

/// A downstream key on its way to the programme compositor.
pub open spec fn dsk_link(base: PlanInfo, p: PipelineInfo, i: int) -> PlanInfo {
    let glcolorconvert_dsk = p.idn("glcolorconvert_dsk_"@, i);
    let mixer = p.id("mixer"@);
    base
        .link(glcolorconvert_dsk, "src"@, mixer, plan::numbered("sink_"@, params::dsk_pad(p.inputs, i)))
}

fn add_dsk_link(parts: &mut BlockPlan, p: &PipelineParams, i: usize)
    requires
        p@.fits(),
        i < p.num_dsk_inputs,
    ensures
        final(parts)@ == dsk_link(old(parts)@, p@, i as int),
{
    let glcolorconvert_dsk = p.idn("glcolorconvert_dsk_", i);
    let mixer = p.id("mixer");
    let pad = plan::numbered_name("sink_", p.num_inputs + i);
    parts.link(glcolorconvert_dsk.as_str(), "src", mixer.as_str(), pad.as_str());
}

/// The first `n` downstream keys on their way to the programme compositor.
pub open spec fn dsk_links(base: PlanInfo, p: PipelineInfo, n: nat) -> PlanInfo
    decreases n,
{
    if n == 0 {
        base
    } else {
        dsk_link(dsk_links(base, p, (n - 1) as nat), p, n - 1)
    }
}

fn add_dsk_links(parts: &mut BlockPlan, p: &PipelineParams)
    requires
        p@.fits(),
    ensures
        final(parts)@ == dsk_links(old(parts)@, p@, p.num_dsk_inputs as nat),
{
    let ghost before = parts@;
    let mut i: usize = 0;
    while i < p.num_dsk_inputs
        invariant
            i <= p.num_dsk_inputs,
            p@.fits(),
            parts@ == dsk_links(before, p@, i as nat),
        decreases p.num_dsk_inputs - i,
    {
        add_dsk_link(parts, p, i);
        i += 1;
    }
}

/// Programme on its way to the multiview.
pub open spec fn pgm_link(base: PlanInfo, p: PipelineInfo) -> PlanInfo {
    let tee_pgm = p.id("tee_pgm"@);
    let queue_pgm_mv = p.id("queue_pgm_mv"@);
    let mv_comp = p.id("mv_comp"@);
    base
        .link(tee_pgm, "src_1"@, queue_pgm_mv, "sink"@)
        .link(queue_pgm_mv, "src"@, mv_comp, plan::numbered("sink_"@, params::pgm_pad(p.inputs)))
}

fn add_pgm_link(parts: &mut BlockPlan, p: &PipelineParams)
    ensures
        final(parts)@ == pgm_link(old(parts)@, p@),
{
    let tee_pgm = p.id("tee_pgm");
    let queue_pgm_mv = p.id("queue_pgm_mv");
    let mv_comp = p.id("mv_comp");
    parts.link(tee_pgm.as_str(), "src_1", queue_pgm_mv.as_str(), "sink");
    let pad = plan::numbered_name("sink_", p.num_inputs);
    parts.link(queue_pgm_mv.as_str(), "src", mv_comp.as_str(), pad.as_str());
}

/// What is drawn over the multiview, behind all other pads.
pub open spec fn overlay_link(base: PlanInfo, p: PipelineInfo) -> PlanInfo {
    let glupload_overlay = p.id("glupload_overlay"@);
    let mv_comp = p.id("mv_comp"@);
    base
        .link(glupload_overlay, "src"@, mv_comp, plan::numbered("sink_"@, params::overlay_pad(p.inputs, p.pips)))
}

fn add_overlay_link(parts: &mut BlockPlan, p: &PipelineParams)
    requires
        p@.fits(),
    ensures
        final(parts)@ == overlay_link(old(parts)@, p@),
{
    let glupload_overlay = p.id("glupload_overlay");
    let mv_comp = p.id("mv_comp");
    let pad = plan::numbered_name("sink_", params::overlay_pad_index(p.num_inputs, p.num_pips));
    parts.link(glupload_overlay.as_str(), "src", mv_comp.as_str(), pad.as_str());
}

/// Both outputs, the downstream keys and the overlay.
pub open spec fn outputs(base: PlanInfo, p: PipelineInfo) -> PlanInfo {
    let s1 = dist_head(base, p);
    let s2 = dist_tail(s1, p);
    let s3 = pgm_queue(s2, p);
    let s4 = dsks(s3, p, p.dsks);
    let s5 = mv_head(s4, p);
    let s6 = mv_tail(s5, p);
    mv_out(s6, p)
}

fn add_outputs(parts: &mut BlockPlan, p: &PipelineParams)
    ensures
        final(parts)@ == outputs(old(parts)@, p@),
{
    add_dist_head(parts, p);
    add_dist_tail(parts, p);
    add_pgm_queue(parts, p);
    add_dsks(parts, p);
    add_mv_head(parts, p);
    add_mv_tail(parts, p);
    add_mv_out(parts, p);
}

/// The connections to the compositors, in the order of their pads.
pub open spec fn connections(base: PlanInfo, p: PipelineInfo) -> PlanInfo {
    let s1 = links::dist_links(base, p, p.inputs);
    let s2 = dsk_links(s1, p, p.dsks);
    let s3 = links::thumb_links(s2, p, p.inputs);
    let s4 = pgm_link(s3, p);
    let s5 = links::pvw_links(s4, p, p.inputs);
    let s6 = links::pip_links(s5, p, p.pips);
    overlay_link(s6, p)
}

fn add_connections(parts: &mut BlockPlan, p: &PipelineParams)
    requires
        p@.fits(),
    ensures
        final(parts)@ == connections(old(parts)@, p@),
{
    links::add_dist_links(parts, p);
    add_dsk_links(parts, p);
    links::add_thumb_links(parts, p);
    add_pgm_link(parts, p);
    links::add_pvw_links(parts, p);
    links::add_pip_links(parts, p);
    add_overlay_link(parts, p);
}

/// What the mixer is built of.
pub open spec fn gpu_plan(p: PipelineInfo) -> PlanInfo {
    let with_inputs = inputs(outputs(params::compositors(p), p), p, p.inputs);
    links::audio_meters(connections(with_inputs, p), p)
}

/// What the mixer is built of on the graphics processor.
pub fn build_gpu_pipeline(p: &PipelineParams) -> (r: BlockPlan)
    requires
        p@.fits(),
    ensures
        r@ == gpu_plan(p@),
{
    let mut parts = params::make_compositors(p);
    add_outputs(&mut parts, p);
    add_inputs(&mut parts, p);
    add_connections(&mut parts, p);
    links::append_audio_meter_chains(&mut parts, p);
    parts
}

} // verus!
