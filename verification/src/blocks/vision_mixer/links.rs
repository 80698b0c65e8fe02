//! Connections from the inputs to the compositors, and the audio meters.

use crate::blocks::plan;
use crate::blocks::plan::{
    BlockPlan, ElementPlan, ElementSpec, PlanInfo, Recipe,
};
use crate::blocks::vision_mixer::params;
use crate::blocks::vision_mixer::params::{PipelineInfo, PipelineParams};
use vstd::prelude::*;

verus! {

// ---------------------------------------------------------------------------
// Straight connections
// ---------------------------------------------------------------------------

/// An input on its way to the programme compositor.
pub open spec fn dist_link(base: PlanInfo, p: PipelineInfo, i: int) -> PlanInfo {
    let tee = p.idn("tee_"@, i);
    let queue_to_dist = p.idn("queue_to_dist_"@, i);
    let mixer = p.id("mixer"@);
    base
        .link(tee, "src_0"@, queue_to_dist, "sink"@)
        .link(queue_to_dist, "src"@, mixer, plan::numbered("sink_"@, i))
}

pub(crate) fn add_dist_link(parts: &mut BlockPlan, p: &PipelineParams, i: usize)
    ensures
        final(parts)@ == dist_link(old(parts)@, p@, i as int),
{
    let tee = p.idn("tee_", i);
    let queue_to_dist = p.idn("queue_to_dist_", i);
    let mixer = p.id("mixer");
    parts.link(tee.as_str(), "src_0", queue_to_dist.as_str(), "sink");
    let pad = plan::numbered_name("sink_", i);
    parts.link(queue_to_dist.as_str(), "src", mixer.as_str(), pad.as_str());
}

/// The first `n` inputs on their way to the programme compositor.
pub open spec fn dist_links(base: PlanInfo, p: PipelineInfo, n: nat) -> PlanInfo
    decreases n,
{
    if n == 0 {
        base
    } else {
        dist_link(dist_links(base, p, (n - 1) as nat), p, n - 1)
    }
}

pub(crate) fn add_dist_links(parts: &mut BlockPlan, p: &PipelineParams)
    ensures
        final(parts)@ == dist_links(old(parts)@, p@, p.num_inputs as nat),
{
    let ghost before = parts@;
    let mut i: usize = 0;
    while i < p.num_inputs
        invariant
            i <= p.num_inputs,
            parts@ == dist_links(before, p@, i as nat),
        decreases p.num_inputs - i,
    {
        add_dist_link(parts, p, i);
        i += 1;
    }
}

/// An input on its way to its thumbnail.
pub open spec fn thumb_link(base: PlanInfo, p: PipelineInfo, i: int) -> PlanInfo {
    let tee = p.idn("tee_"@, i);
    let queue_to_mv_thumb = p.idn("queue_to_mv_thumb_"@, i);
    let mv_comp = p.id("mv_comp"@);
    base
        .link(tee, "src_1"@, queue_to_mv_thumb, "sink"@)
        .link(queue_to_mv_thumb, "src"@, mv_comp, plan::numbered("sink_"@, params::thumb_pad(i)))
}

pub(crate) fn add_thumb_link(parts: &mut BlockPlan, p: &PipelineParams, i: usize)
    ensures
        final(parts)@ == thumb_link(old(parts)@, p@, i as int),
{
    let tee = p.idn("tee_", i);
    let queue_to_mv_thumb = p.idn("queue_to_mv_thumb_", i);
    let mv_comp = p.id("mv_comp");
    parts.link(tee.as_str(), "src_1", queue_to_mv_thumb.as_str(), "sink");
    let pad = plan::numbered_name("sink_", i);
    parts.link(queue_to_mv_thumb.as_str(), "src", mv_comp.as_str(), pad.as_str());
}

/// The first `n` inputs on their way to their thumbnails.
pub open spec fn thumb_links(base: PlanInfo, p: PipelineInfo, n: nat) -> PlanInfo
    decreases n,
{
    if n == 0 {
        base
    } else {
        thumb_link(thumb_links(base, p, (n - 1) as nat), p, n - 1)
    }
}

pub(crate) fn add_thumb_links(parts: &mut BlockPlan, p: &PipelineParams)
    ensures
        final(parts)@ == thumb_links(old(parts)@, p@, p.num_inputs as nat),
{
    let ghost before = parts@;
    let mut i: usize = 0;
    while i < p.num_inputs
        invariant
            i <= p.num_inputs,
            parts@ == thumb_links(before, p@, i as nat),
        decreases p.num_inputs - i,
    {
        add_thumb_link(parts, p, i);
        i += 1;
    }
}

/// An input on its way to preview.
pub open spec fn pvw_link(base: PlanInfo, p: PipelineInfo, i: int) -> PlanInfo {
    let tee = p.idn("tee_"@, i);
    let queue_to_mv_pvw = p.idn("queue_to_mv_pvw_"@, i);
    let mv_comp = p.id("mv_comp"@);
    base
        .link(tee, "src_2"@, queue_to_mv_pvw, "sink"@)
        .link(queue_to_mv_pvw, "src"@, mv_comp, plan::numbered("sink_"@, params::pvw_pad(p.inputs, i)))
}

pub(crate) fn add_pvw_link(parts: &mut BlockPlan, p: &PipelineParams, i: usize)
    requires
        p@.fits(),
        i < p.num_inputs,
    ensures
        final(parts)@ == pvw_link(old(parts)@, p@, i as int),
{
    let tee = p.idn("tee_", i);
    let queue_to_mv_pvw = p.idn("queue_to_mv_pvw_", i);
    let mv_comp = p.id("mv_comp");
    parts.link(tee.as_str(), "src_2", queue_to_mv_pvw.as_str(), "sink");
    let pad = plan::numbered_name("sink_", p.num_inputs + 1 + i);
    parts.link(queue_to_mv_pvw.as_str(), "src", mv_comp.as_str(), pad.as_str());
}

/// The first `n` inputs on their way to preview.
pub open spec fn pvw_links(base: PlanInfo, p: PipelineInfo, n: nat) -> PlanInfo
    decreases n,
{
    if n == 0 {
        base
    } else {
        pvw_link(pvw_links(base, p, (n - 1) as nat), p, n - 1)
    }
}

pub(crate) fn add_pvw_links(parts: &mut BlockPlan, p: &PipelineParams)
    requires
        p@.fits(),
    ensures
        final(parts)@ == pvw_links(old(parts)@, p@, p.num_inputs as nat),
{
    let ghost before = parts@;
    let mut i: usize = 0;
    while i < p.num_inputs
        invariant
            i <= p.num_inputs,
            p@.fits(),
            parts@ == pvw_links(before, p@, i as nat),
        decreases p.num_inputs - i,
    {
        add_pvw_link(parts, p, i);
        i += 1;
    }
}

/// An input on its way to a tile.
pub open spec fn pip_link(base: PlanInfo, p: PipelineInfo, pip: int, i: int) -> PlanInfo {
    let tee = p.idn("tee_"@, i);
    let queue_to_mv_pip = p.idnn("queue_to_mv_pip_"@, pip, i);
    let mv_comp = p.id("mv_comp"@);
    base
        .link(tee, plan::numbered("src_"@, 3 + pip), queue_to_mv_pip, "sink"@)
        .link(queue_to_mv_pip, "src"@, mv_comp, plan::numbered("sink_"@, params::pip_pad(p.inputs, pip, i)))
}

pub(crate) fn add_pip_link(parts: &mut BlockPlan, p: &PipelineParams, pip: usize, i: usize)
    requires
        p@.fits(),
        pip < p.num_pips,
        i < p.num_inputs,
    ensures
        final(parts)@ == pip_link(old(parts)@, p@, pip as int, i as int),
{
    let tee = p.idn("tee_", i);
    let queue_to_mv_pip = p.idnn("queue_to_mv_pip_", pip, i);
    let mv_comp = p.id("mv_comp");
    let pad = plan::numbered_name("src_", 3 + pip);
    parts.link(tee.as_str(), pad.as_str(), queue_to_mv_pip.as_str(), "sink");
    let pad_2 = plan::numbered_name("sink_", params::pip_pad_index(p.num_inputs, p.num_pips, pip, i));
    parts.link(queue_to_mv_pip.as_str(), "src", mv_comp.as_str(), pad_2.as_str());
}

/// The first `n` inputs on their way to a tile.
pub open spec fn pip_row(base: PlanInfo, p: PipelineInfo, pip: int, n: nat) -> PlanInfo
    decreases n,
{
    if n == 0 {
        base
    } else {
        pip_link(pip_row(base, p, pip, (n - 1) as nat), p, pip, n - 1)
    }
}

pub(crate) fn add_pip_row(parts: &mut BlockPlan, p: &PipelineParams, pip: usize)
    requires
        p@.fits(),
        pip < p.num_pips,
    ensures
        final(parts)@ == pip_row(old(parts)@, p@, pip as int, p.num_inputs as nat),
{
    let ghost before = parts@;
    let mut i: usize = 0;
    while i < p.num_inputs
        invariant
            i <= p.num_inputs,
            p@.fits(),
            pip < p.num_pips,
            parts@ == pip_row(before, p@, pip as int, i as nat),
        decreases p.num_inputs - i,
    {
        add_pip_link(parts, p, pip, i);
        i += 1;
    }
}

/// All inputs on their way to the first `n` tiles.
pub open spec fn pip_links(base: PlanInfo, p: PipelineInfo, n: nat) -> PlanInfo
    decreases n,
{
    if n == 0 {
        base
    } else {
        pip_row(pip_links(base, p, (n - 1) as nat), p, n - 1, p.inputs)
    }
}

pub(crate) fn add_pip_links(parts: &mut BlockPlan, p: &PipelineParams)
    requires
        p@.fits(),
    ensures
        final(parts)@ == pip_links(old(parts)@, p@, p.num_pips as nat),
{
    let ghost before = parts@;
    let mut pip: usize = 0;
    while pip < p.num_pips
        invariant
            pip <= p.num_pips,
            p@.fits(),
            parts@ == pip_links(before, p@, pip as nat),
        decreases p.num_pips - pip,
    {
        add_pip_row(parts, p, pip);
        pip += 1;
    }
}

// ---------------------------------------------------------------------------
// Connections that can be cropped
// ---------------------------------------------------------------------------

/// An input on its way to the programme compositor, through a crop.
pub open spec fn cropped_dist_link(base: PlanInfo, p: PipelineInfo, i: int) -> PlanInfo {
    let tee = p.idn("tee_"@, i);
    let queue_to_dist = p.idn("queue_to_dist_"@, i);
    let videocrop_dist = p.idn("videocrop_dist_"@, i);
    let mixer = p.id("mixer"@);
    base
        .link(tee, "src_0"@, queue_to_dist, "sink"@)
        .link(queue_to_dist, "src"@, videocrop_dist, "sink"@)
        .link(videocrop_dist, "src"@, mixer, plan::numbered("sink_"@, i))
}

pub(crate) fn add_cropped_dist_link(parts: &mut BlockPlan, p: &PipelineParams, i: usize)
    ensures
        final(parts)@ == cropped_dist_link(old(parts)@, p@, i as int),
{
    let tee = p.idn("tee_", i);
    let queue_to_dist = p.idn("queue_to_dist_", i);
    let videocrop_dist = p.idn("videocrop_dist_", i);
    let mixer = p.id("mixer");
    parts.link(tee.as_str(), "src_0", queue_to_dist.as_str(), "sink");
    parts.link(queue_to_dist.as_str(), "src", videocrop_dist.as_str(), "sink");
    let pad = plan::numbered_name("sink_", i);
    parts.link(videocrop_dist.as_str(), "src", mixer.as_str(), pad.as_str());
}

/// The first `n` inputs on their way to the programme compositor, through a crop.
pub open spec fn cropped_dist_links(base: PlanInfo, p: PipelineInfo, n: nat) -> PlanInfo
    decreases n,
{
    if n == 0 {
        base
    } else {
        cropped_dist_link(cropped_dist_links(base, p, (n - 1) as nat), p, n - 1)
    }
}

pub(crate) fn add_cropped_dist_links(parts: &mut BlockPlan, p: &PipelineParams)
    ensures
        final(parts)@ == cropped_dist_links(old(parts)@, p@, p.num_inputs as nat),
{
    let ghost before = parts@;
    let mut i: usize = 0;
    while i < p.num_inputs
        invariant
            i <= p.num_inputs,
            parts@ == cropped_dist_links(before, p@, i as nat),
        decreases p.num_inputs - i,
    {
        add_cropped_dist_link(parts, p, i);
        i += 1;
    }
}

/// An input on its way to preview, through a crop.
pub open spec fn cropped_pvw_link(base: PlanInfo, p: PipelineInfo, i: int) -> PlanInfo {
    let tee = p.idn("tee_"@, i);
    let queue_to_mv_pvw = p.idn("queue_to_mv_pvw_"@, i);
    let videocrop_pvw = p.idn("videocrop_pvw_"@, i);
    let mv_comp = p.id("mv_comp"@);
    base
        .link(tee, "src_2"@, queue_to_mv_pvw, "sink"@)
        .link(queue_to_mv_pvw, "src"@, videocrop_pvw, "sink"@)
        .link(videocrop_pvw, "src"@, mv_comp, plan::numbered("sink_"@, params::pvw_pad(p.inputs, i)))
}

pub(crate) fn add_cropped_pvw_link(parts: &mut BlockPlan, p: &PipelineParams, i: usize)
    requires
        p@.fits(),
        i < p.num_inputs,
    ensures
        final(parts)@ == cropped_pvw_link(old(parts)@, p@, i as int),
{
    let tee = p.idn("tee_", i);
    let queue_to_mv_pvw = p.idn("queue_to_mv_pvw_", i);
    let videocrop_pvw = p.idn("videocrop_pvw_", i);
    let mv_comp = p.id("mv_comp");
    parts.link(tee.as_str(), "src_2", queue_to_mv_pvw.as_str(), "sink");
    parts.link(queue_to_mv_pvw.as_str(), "src", videocrop_pvw.as_str(), "sink");
    let pad = plan::numbered_name("sink_", p.num_inputs + 1 + i);
    parts.link(videocrop_pvw.as_str(), "src", mv_comp.as_str(), pad.as_str());
}

/// The first `n` inputs on their way to preview, through a crop.
pub open spec fn cropped_pvw_links(base: PlanInfo, p: PipelineInfo, n: nat) -> PlanInfo
    decreases n,
{
    if n == 0 {
        base
    } else {
        cropped_pvw_link(cropped_pvw_links(base, p, (n - 1) as nat), p, n - 1)
    }
}

pub(crate) fn add_cropped_pvw_links(parts: &mut BlockPlan, p: &PipelineParams)
    requires
        p@.fits(),
    ensures
        final(parts)@ == cropped_pvw_links(old(parts)@, p@, p.num_inputs as nat),
{
    let ghost before = parts@;
    let mut i: usize = 0;
    while i < p.num_inputs
        invariant
            i <= p.num_inputs,
            p@.fits(),
            parts@ == cropped_pvw_links(before, p@, i as nat),
        decreases p.num_inputs - i,
    {
        add_cropped_pvw_link(parts, p, i);
        i += 1;
    }
}

/// An input on its way to a tile, through a crop.
pub open spec fn cropped_pip_link(base: PlanInfo, p: PipelineInfo, pip: int, i: int) -> PlanInfo {
    let tee = p.idn("tee_"@, i);
    let queue_to_mv_pip = p.idnn("queue_to_mv_pip_"@, pip, i);
    let videocrop_pip = p.idnn("videocrop_pip_"@, pip, i);
    let mv_comp = p.id("mv_comp"@);
    base
        .link(tee, plan::numbered("src_"@, 3 + pip), queue_to_mv_pip, "sink"@)
        .link(queue_to_mv_pip, "src"@, videocrop_pip, "sink"@)
        .link(videocrop_pip, "src"@, mv_comp, plan::numbered("sink_"@, params::pip_pad(p.inputs, pip, i)))
}

pub(crate) fn add_cropped_pip_link(parts: &mut BlockPlan, p: &PipelineParams, pip: usize, i: usize)
    requires
        p@.fits(),
        pip < p.num_pips,
        i < p.num_inputs,
    ensures
        final(parts)@ == cropped_pip_link(old(parts)@, p@, pip as int, i as int),
{
    let tee = p.idn("tee_", i);
    let queue_to_mv_pip = p.idnn("queue_to_mv_pip_", pip, i);
    let videocrop_pip = p.idnn("videocrop_pip_", pip, i);
    let mv_comp = p.id("mv_comp");
    let pad = plan::numbered_name("src_", 3 + pip);
    parts.link(tee.as_str(), pad.as_str(), queue_to_mv_pip.as_str(), "sink");
    parts.link(queue_to_mv_pip.as_str(), "src", videocrop_pip.as_str(), "sink");
    let pad_2 = plan::numbered_name("sink_", params::pip_pad_index(p.num_inputs, p.num_pips, pip, i));
    parts.link(videocrop_pip.as_str(), "src", mv_comp.as_str(), pad_2.as_str());
}

/// The first `n` inputs on their way to a tile, through a crop.
pub open spec fn cropped_pip_row(base: PlanInfo, p: PipelineInfo, pip: int, n: nat) -> PlanInfo
    decreases n,
{
    if n == 0 {
        base
    } else {
        cropped_pip_link(cropped_pip_row(base, p, pip, (n - 1) as nat), p, pip, n - 1)
    }
}

pub(crate) fn add_cropped_pip_row(parts: &mut BlockPlan, p: &PipelineParams, pip: usize)
    requires
        p@.fits(),
        pip < p.num_pips,
    ensures
        final(parts)@ == cropped_pip_row(old(parts)@, p@, pip as int, p.num_inputs as nat),
{
    let ghost before = parts@;
    let mut i: usize = 0;
    while i < p.num_inputs
        invariant
            i <= p.num_inputs,
            p@.fits(),
            pip < p.num_pips,
            parts@ == cropped_pip_row(before, p@, pip as int, i as nat),
        decreases p.num_inputs - i,
    {
        add_cropped_pip_link(parts, p, pip, i);
        i += 1;
    }
}

/// All inputs on their way to the first `n` tiles, through a crop.
pub open spec fn cropped_pip_links(base: PlanInfo, p: PipelineInfo, n: nat) -> PlanInfo
    decreases n,
{
    if n == 0 {
        base
    } else {
        cropped_pip_row(cropped_pip_links(base, p, (n - 1) as nat), p, n - 1, p.inputs)
    }
}

pub(crate) fn add_cropped_pip_links(parts: &mut BlockPlan, p: &PipelineParams)
    requires
        p@.fits(),
    ensures
        final(parts)@ == cropped_pip_links(old(parts)@, p@, p.num_pips as nat),
{
    let ghost before = parts@;
    let mut pip: usize = 0;
    while pip < p.num_pips
        invariant
            pip <= p.num_pips,
            p@.fits(),
            parts@ == cropped_pip_links(before, p@, pip as nat),
        decreases p.num_pips - pip,
    {
        add_cropped_pip_row(parts, p, pip);
        pip += 1;
    }
}

// ---------------------------------------------------------------------------
// Audio meters
// ---------------------------------------------------------------------------

/// Measures how loud a stream is.
pub open spec fn level(id: Seq<char>) -> ElementPlan {
    plan::plain_element(id, "level"@).made_by(Recipe::Level)
}

fn make_level(id: &str) -> (r: ElementSpec)
    ensures
        r@ == level(id@),
{
    let mut e = ElementSpec::new(id, "level");
    e.make_by(Recipe::Level);
    e
}

/// Ends a stream that is only measured.
pub open spec fn meter_sink(id: Seq<char>) -> ElementPlan {
    plan::plain_element(id, "fakesink"@).made_by(Recipe::MeterSink)
}

fn make_meter_fakesink(id: &str) -> (r: ElementSpec)
    ensures
        r@ == meter_sink(id@),
{
    let mut e = ElementSpec::new(id, "fakesink");
    e.make_by(Recipe::MeterSink);
    e
}

/// The meter for the sound of an input.
pub open spec fn meter(base: PlanInfo, p: PipelineInfo, i: int) -> PlanInfo {
    let queue_audio = p.idn("queue_audio_"@, i);
    let audioconvert_audio = p.idn("audioconvert_audio_"@, i);
    let level_audio = p.idn("level_audio_"@, i);
    let fakesink_audio = p.idn("fakesink_audio_"@, i);
    base
        .add(params::queue(queue_audio))
        .add(plan::plain_element(audioconvert_audio, "audioconvert"@))
        .add(level(level_audio))
        .add(meter_sink(fakesink_audio))
        .link(queue_audio, "src"@, audioconvert_audio, "sink"@)
        .link(audioconvert_audio, "src"@, level_audio, "sink"@)
        .link(level_audio, "src"@, fakesink_audio, "sink"@)
}

pub(crate) fn add_meter(parts: &mut BlockPlan, p: &PipelineParams, i: usize)
    ensures
        final(parts)@ == meter(old(parts)@, p@, i as int),
{
    let queue_audio = p.idn("queue_audio_", i);
    let audioconvert_audio = p.idn("audioconvert_audio_", i);
    let level_audio = p.idn("level_audio_", i);
    let fakesink_audio = p.idn("fakesink_audio_", i);
    parts.add(params::make_queue(queue_audio.as_str()));
    parts.add(ElementSpec::new(audioconvert_audio.as_str(), "audioconvert"));
    parts.add(make_level(level_audio.as_str()));
    parts.add(make_meter_fakesink(fakesink_audio.as_str()));
    parts.link(queue_audio.as_str(), "src", audioconvert_audio.as_str(), "sink");
    parts.link(audioconvert_audio.as_str(), "src", level_audio.as_str(), "sink");
    parts.link(level_audio.as_str(), "src", fakesink_audio.as_str(), "sink");
}

/// The meters for the sound of the first `n` inputs.
pub open spec fn meters(base: PlanInfo, p: PipelineInfo, n: nat) -> PlanInfo
    decreases n,
{
    if n == 0 {
        base
    } else {
        meter(meters(base, p, (n - 1) as nat), p, n - 1)
    }
}

pub(crate) fn add_meters(parts: &mut BlockPlan, p: &PipelineParams)
    ensures
        final(parts)@ == meters(old(parts)@, p@, p.num_inputs as nat),
{
    let ghost before = parts@;
    let mut i: usize = 0;
    while i < p.num_inputs
        invariant
            i <= p.num_inputs,
            parts@ == meters(before, p@, i as nat),
        decreases p.num_inputs - i,
    {
        add_meter(parts, p, i);
        i += 1;
    }
}

/// The meter for the sound of programme.
pub open spec fn pgm_meter(base: PlanInfo, p: PipelineInfo) -> PlanInfo {
    let queue_audio_pgm = p.id("queue_audio_pgm"@);
    let audioconvert_audio_pgm = p.id("audioconvert_audio_pgm"@);
    let level_audio_pgm = p.id("level_audio_pgm"@);
    let fakesink_audio_pgm = p.id("fakesink_audio_pgm"@);
    base
        .add(params::queue(queue_audio_pgm))
        .add(plan::plain_element(audioconvert_audio_pgm, "audioconvert"@))
        .add(level(level_audio_pgm))
        .add(meter_sink(fakesink_audio_pgm))
        .link(queue_audio_pgm, "src"@, audioconvert_audio_pgm, "sink"@)
        .link(audioconvert_audio_pgm, "src"@, level_audio_pgm, "sink"@)
        .link(level_audio_pgm, "src"@, fakesink_audio_pgm, "sink"@)
}

pub(crate) fn add_pgm_meter(parts: &mut BlockPlan, p: &PipelineParams)
    ensures
        final(parts)@ == pgm_meter(old(parts)@, p@),
{
    let queue_audio_pgm = p.id("queue_audio_pgm");
    let audioconvert_audio_pgm = p.id("audioconvert_audio_pgm");
    let level_audio_pgm = p.id("level_audio_pgm");
    let fakesink_audio_pgm = p.id("fakesink_audio_pgm");
    parts.add(params::make_queue(queue_audio_pgm.as_str()));
    parts.add(ElementSpec::new(audioconvert_audio_pgm.as_str(), "audioconvert"));
    parts.add(make_level(level_audio_pgm.as_str()));
    parts.add(make_meter_fakesink(fakesink_audio_pgm.as_str()));
    parts.link(queue_audio_pgm.as_str(), "src", audioconvert_audio_pgm.as_str(), "sink");
    parts.link(audioconvert_audio_pgm.as_str(), "src", level_audio_pgm.as_str(), "sink");
    parts.link(level_audio_pgm.as_str(), "src", fakesink_audio_pgm.as_str(), "sink");
}

/// A meter for the sound of each input and one for that of programme.
pub open spec fn audio_meters(base: PlanInfo, p: PipelineInfo) -> PlanInfo {
    pgm_meter(meters(base, p, p.inputs), p)
}

/// Adds a meter for the sound of each input and one for that of programme.
pub(crate) fn append_audio_meter_chains(parts: &mut BlockPlan, p: &PipelineParams)
    ensures
        final(parts)@ == audio_meters(old(parts)@, p@),
{
    add_meters(parts, p);
    add_pgm_meter(parts, p);
}

} // verus!
