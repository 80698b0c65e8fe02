//! The pads of the compositors on the graphics processor.
//!
//! A compositor there gives its pads numbers as they are connected, one after
//! the other. So the connections must come in the order of the pads that they
//! are meant for.

use crate::blocks::plan;
use crate::blocks::plan::{ElementPlan, LinkPlan, PlanInfo};
use crate::blocks::vision_mixer::gpu;
use crate::blocks::vision_mixer::links;
use crate::blocks::vision_mixer::params;
use crate::blocks::vision_mixer::params::PipelineInfo;
use vstd::prelude::*;

verus! {

/// The pads of an element that connections lead to, in the order of the
/// connections.
pub open spec fn pads_into(links: Seq<LinkPlan>, element: Seq<char>) -> Seq<Seq<char>>
    decreases links.len(),
{
    if links.len() == 0 {
        Seq::empty()
    } else {
        let before = pads_into(links.drop_last(), element);
        if links.last().to_element == element {
            before.push(links.last().to_pad)
        } else {
            before
        }
    }
}

/// The pads of an element that connections of a plan lead to.
pub open spec fn into(plan: PlanInfo, element: Seq<char>) -> Seq<Seq<char>> {
    pads_into(plan.links, element)
}

/// `n` pads, numbered from `from` on.
pub open spec fn sinks(from: int, n: nat) -> Seq<Seq<char>> {
    Seq::new(n, |k: int| plan::numbered("sink_"@, from + k))
}

/// Two plans connect to the same pads of both compositors.
pub open spec fn same_pads(a: PlanInfo, b: PlanInfo, p: PipelineInfo) -> bool {
    &&& into(b, p.id("mixer"@)) == into(a, p.id("mixer"@))
    &&& into(b, p.id("mv_comp"@)) == into(a, p.id("mv_comp"@))
}

broadcast proof fn into_add(base: PlanInfo, element: ElementPlan, target: Seq<char>)
    ensures
        #[trigger] into(base.add(element), target) == into(base, target),
{
}

broadcast proof fn into_link(
    base: PlanInfo,
    from_element: Seq<char>,
    from_pad: Seq<char>,
    to_element: Seq<char>,
    to_pad: Seq<char>,
    target: Seq<char>,
)
    ensures
        #[trigger] into(base.link(from_element, from_pad, to_element, to_pad), target) == if to_element
            == target {
            into(base, target).push(to_pad)
        } else {
            into(base, target)
        },
{
    let after = base.link(from_element, from_pad, to_element, to_pad);
    assert(after.links.drop_last() =~= base.links);
}

/// An id whose name does not start like those of the compositors is neither.
proof fn other_name(p: PipelineInfo, name: Seq<char>)
    requires
        name.len() > 0,
        name[0] != 'm',
    ensures
        plan::member(p.instance, name) != p.id("mixer"@),
        plan::member(p.instance, name) != p.id("mv_comp"@),
{
    reveal_strlit(":");
    reveal_strlit("mixer");
    reveal_strlit("mv_comp");
    let at = p.instance.len() + 1;
    assert(plan::member(p.instance, name)[at as int] == name[0]);
    assert(p.id("mixer"@)[at as int] == 'm');
    assert(p.id("mv_comp"@)[at as int] == 'm');
}

proof fn other_id(p: PipelineInfo, name: Seq<char>)
    requires
        name.len() > 0,
        name[0] != 'm',
    ensures
        p.id(name) != p.id("mixer"@),
        p.id(name) != p.id("mv_comp"@),
{
    other_name(p, name);
}

proof fn other_idn(p: PipelineInfo, name: Seq<char>, i: int)
    requires
        name.len() > 0,
        name[0] != 'm',
    ensures
        p.idn(name, i) != p.id("mixer"@),
        p.idn(name, i) != p.id("mv_comp"@),
{
    other_name(p, plan::numbered(name, i));
}

proof fn other_idnn(p: PipelineInfo, name: Seq<char>, pip: int, i: int)
    requires
        name.len() > 0,
        name[0] != 'm',
    ensures
        p.idnn(name, pip, i) != p.id("mixer"@),
        p.idnn(name, pip, i) != p.id("mv_comp"@),
{
    other_name(p, plan::numbered(plan::numbered(name, pip) + "_"@, i));
}

proof fn the_compositors_differ(p: PipelineInfo)
    ensures
        p.id("mixer"@) != p.id("mv_comp"@),
{
    reveal_strlit("mixer");
    reveal_strlit("mv_comp");
    plan::member_is_injective(p.instance, "mixer"@, "mv_comp"@);
    assert("mixer"@[1] != "mv_comp"@[1]);
}

proof fn keeps_dist_head(base: PlanInfo, p: PipelineInfo)
    ensures
        same_pads(base, gpu::dist_head(base, p), p),
{
    broadcast use {into_add, into_link};
    
    reveal_strlit("queue_post_dist");
    other_id(p, "queue_post_dist"@);
    reveal_strlit("tee_pgm");
    other_id(p, "tee_pgm"@);
}

proof fn keeps_dist_download(base: PlanInfo, p: PipelineInfo)
    ensures
        same_pads(base, gpu::dist_download(base, p), p),
{
    broadcast use {into_add, into_link};
    
    reveal_strlit("gldownload_dist");
    other_id(p, "gldownload_dist"@);
    reveal_strlit("capsfilter_dist");
    other_id(p, "capsfilter_dist"@);
    reveal_strlit("queue_dist_out");
    other_id(p, "queue_dist_out"@);
}

proof fn keeps_dist_glmem(base: PlanInfo, p: PipelineInfo)
    ensures
        same_pads(base, gpu::dist_glmem(base, p), p),
{
    broadcast use {into_add, into_link};
    
    reveal_strlit("capsfilter_dist");
    other_id(p, "capsfilter_dist"@);
    reveal_strlit("queue_dist_out");
    other_id(p, "queue_dist_out"@);
}

proof fn keeps_dist_tail(base: PlanInfo, p: PipelineInfo)
    ensures
        same_pads(base, gpu::dist_tail(base, p), p),
{
    if p.gl_download {
        keeps_dist_download(base, p);
    } else {
        keeps_dist_glmem(base, p);
    }
}

proof fn keeps_pgm_queue(base: PlanInfo, p: PipelineInfo)
    ensures
        same_pads(base, gpu::pgm_queue(base, p), p),
{
    broadcast use {into_add, into_link};
    
}

proof fn keeps_dsk(base: PlanInfo, p: PipelineInfo, i: int)
    ensures
        same_pads(base, gpu::dsk(base, p, i), p),
{
    broadcast use {into_add, into_link};
    
    reveal_strlit("glupload_dsk_");
    other_idn(p, "glupload_dsk_"@, i);
    reveal_strlit("glcolorconvert_dsk_");
    other_idn(p, "glcolorconvert_dsk_"@, i);
}

proof fn keeps_dsks(base: PlanInfo, p: PipelineInfo, n: nat)
    ensures
        same_pads(base, gpu::dsks(base, p, n), p),
    decreases n,
{
    if n > 0 {
        keeps_dsks(base, p, (n - 1) as nat);
        keeps_dsk(gpu::dsks(base, p, (n - 1) as nat), p, n - 1);
    }
}

proof fn keeps_mv_head(base: PlanInfo, p: PipelineInfo)
    ensures
        same_pads(base, gpu::mv_head(base, p), p),
{
    broadcast use {into_add, into_link};
    
    reveal_strlit("queue_post_mv");
    other_id(p, "queue_post_mv"@);
}

proof fn keeps_mv_download(base: PlanInfo, p: PipelineInfo)
    ensures
        same_pads(base, gpu::mv_download(base, p), p),
{
    broadcast use {into_add, into_link};
    
    reveal_strlit("gldownload_mv");
    other_id(p, "gldownload_mv"@);
    reveal_strlit("capsfilter_mv");
    other_id(p, "capsfilter_mv"@);
    reveal_strlit("tee_mv");
    other_id(p, "tee_mv"@);
}

proof fn keeps_mv_glmem(base: PlanInfo, p: PipelineInfo)
    ensures
        same_pads(base, gpu::mv_glmem(base, p), p),
{
    broadcast use {into_add, into_link};
    
    reveal_strlit("capsfilter_mv");
    other_id(p, "capsfilter_mv"@);
    reveal_strlit("tee_mv");
    other_id(p, "tee_mv"@);
}

proof fn keeps_mv_tail(base: PlanInfo, p: PipelineInfo)
    ensures
        same_pads(base, gpu::mv_tail(base, p), p),
{
    if p.gl_download {
        keeps_mv_download(base, p);
    } else {
        keeps_mv_glmem(base, p);
    }
}

proof fn keeps_mv_out(base: PlanInfo, p: PipelineInfo)
    ensures
        same_pads(base, gpu::mv_out(base, p), p),
{
    broadcast use {into_add, into_link};
    
    reveal_strlit("queue_mv_out");
    other_id(p, "queue_mv_out"@);
    reveal_strlit("queue_overlay");
    other_id(p, "queue_overlay"@);
    reveal_strlit("glupload_overlay");
    other_id(p, "glupload_overlay"@);
}

proof fn keeps_input_head(base: PlanInfo, p: PipelineInfo, i: int)
    ensures
        same_pads(base, gpu::input_head(base, p, i), p),
{
    broadcast use {into_add, into_link};
    
}

proof fn keeps_tile_queue(base: PlanInfo, p: PipelineInfo, i: int, pip: int)
    ensures
        same_pads(base, gpu::tile_queue(base, p, i, pip), p),
{
    broadcast use {into_add, into_link};
    
}

proof fn keeps_tile_queues(base: PlanInfo, p: PipelineInfo, i: int, n: nat)
    ensures
        same_pads(base, gpu::tile_queues(base, p, i, n), p),
    decreases n,
{
    if n > 0 {
        keeps_tile_queues(base, p, i, (n - 1) as nat);
        keeps_tile_queue(gpu::tile_queues(base, p, i, (n - 1) as nat), p, i, n - 1);
    }
}

proof fn keeps_input_links(base: PlanInfo, p: PipelineInfo, i: int)
    ensures
        same_pads(base, gpu::input_links(base, p, i), p),
{
    broadcast use {into_add, into_link};
    
    reveal_strlit("glupload_");
    other_idn(p, "glupload_"@, i);
    reveal_strlit("glcolorconvert_");
    other_idn(p, "glcolorconvert_"@, i);
    reveal_strlit("tee_");
    other_idn(p, "tee_"@, i);
}

proof fn keeps_input(base: PlanInfo, p: PipelineInfo, i: int)
    ensures
        same_pads(base, gpu::input(base, p, i), p),
{
    let s1 = gpu::input_head(base, p, i);
    keeps_input_head(base, p, i);
    let s2 = gpu::tile_queues(s1, p, i, p.pips);
    keeps_tile_queues(s1, p, i, p.pips);
    keeps_input_links(s2, p, i);
}

proof fn keeps_inputs(base: PlanInfo, p: PipelineInfo, n: nat)
    ensures
        same_pads(base, gpu::inputs(base, p, n), p),
    decreases n,
{
    if n > 0 {
        keeps_inputs(base, p, (n - 1) as nat);
        keeps_input(gpu::inputs(base, p, (n - 1) as nat), p, n - 1);
    }
}

proof fn keeps_outputs(base: PlanInfo, p: PipelineInfo)
    ensures
        same_pads(base, gpu::outputs(base, p), p),
{
    let s1 = gpu::dist_head(base, p);
    keeps_dist_head(base, p);
    let s2 = gpu::dist_tail(s1, p);
    keeps_dist_tail(s1, p);
    let s3 = gpu::pgm_queue(s2, p);
    keeps_pgm_queue(s2, p);
    let s4 = gpu::dsks(s3, p, p.dsks);
    keeps_dsks(s3, p, p.dsks);
    let s5 = gpu::mv_head(s4, p);
    keeps_mv_head(s4, p);
    let s6 = gpu::mv_tail(s5, p);
    keeps_mv_tail(s5, p);
    keeps_mv_out(s6, p);
}
proof fn keeps_meter(base: PlanInfo, p: PipelineInfo, i: int)
    ensures
        same_pads(base, links::meter(base, p, i), p),
{
    broadcast use {into_add, into_link};
    
    reveal_strlit("audioconvert_audio_");
    other_idn(p, "audioconvert_audio_"@, i);
    reveal_strlit("level_audio_");
    other_idn(p, "level_audio_"@, i);
    reveal_strlit("fakesink_audio_");
    other_idn(p, "fakesink_audio_"@, i);
}

proof fn keeps_meters(base: PlanInfo, p: PipelineInfo, n: nat)
    ensures
        same_pads(base, links::meters(base, p, n), p),
    decreases n,
{
    if n > 0 {
        keeps_meters(base, p, (n - 1) as nat);
        keeps_meter(links::meters(base, p, (n - 1) as nat), p, n - 1);
    }
}

proof fn keeps_pgm_meter(base: PlanInfo, p: PipelineInfo)
    ensures
        same_pads(base, links::pgm_meter(base, p), p),
{
    broadcast use {into_add, into_link};
    
    reveal_strlit("audioconvert_audio_pgm");
    other_id(p, "audioconvert_audio_pgm"@);
    reveal_strlit("level_audio_pgm");
    other_id(p, "level_audio_pgm"@);
    reveal_strlit("fakesink_audio_pgm");
    other_id(p, "fakesink_audio_pgm"@);
}

proof fn numbers_dist_link(base: PlanInfo, p: PipelineInfo, i: int)
    ensures
        into(links::dist_link(base, p, i), p.id("mixer"@)) == into(base, p.id("mixer"@)).push(
            plan::numbered("sink_"@, i),
        ),
        into(links::dist_link(base, p, i), p.id("mv_comp"@)) == into(base, p.id("mv_comp"@)),
{
    broadcast use {into_add, into_link};

    reveal_strlit("queue_to_dist_");
    other_idn(p, "queue_to_dist_"@, i);
    the_compositors_differ(p);
}
proof fn numbers_dist_links(base: PlanInfo, p: PipelineInfo, n: nat)
    ensures
        into(links::dist_links(base, p, n), p.id("mixer"@)) == into(base, p.id("mixer"@)) + sinks(0, n),
        into(links::dist_links(base, p, n), p.id("mv_comp"@)) == into(base, p.id("mv_comp"@)),
    decreases n,
{
    if n > 0 {
        numbers_dist_links(base, p, (n - 1) as nat);
        numbers_dist_link(links::dist_links(base, p, (n - 1) as nat), p, n - 1);
    }
    assert(into(links::dist_links(base, p, n), p.id("mixer"@)) =~= into(base, p.id("mixer"@)) + sinks(0, n));
}

proof fn numbers_dsk_link(base: PlanInfo, p: PipelineInfo, i: int)
    ensures
        into(gpu::dsk_link(base, p, i), p.id("mixer"@)) == into(base, p.id("mixer"@)).push(
            plan::numbered("sink_"@, params::dsk_pad(p.inputs, i)),
        ),
        into(gpu::dsk_link(base, p, i), p.id("mv_comp"@)) == into(base, p.id("mv_comp"@)),
{
    broadcast use {into_add, into_link};

    the_compositors_differ(p);
}
proof fn numbers_dsk_links(base: PlanInfo, p: PipelineInfo, n: nat)
    ensures
        into(gpu::dsk_links(base, p, n), p.id("mixer"@)) == into(base, p.id("mixer"@)) + sinks(p.inputs as int, n),
        into(gpu::dsk_links(base, p, n), p.id("mv_comp"@)) == into(base, p.id("mv_comp"@)),
    decreases n,
{
    if n > 0 {
        numbers_dsk_links(base, p, (n - 1) as nat);
        numbers_dsk_link(gpu::dsk_links(base, p, (n - 1) as nat), p, n - 1);
    }
    assert(into(gpu::dsk_links(base, p, n), p.id("mixer"@)) =~= into(base, p.id("mixer"@)) + sinks(p.inputs as int, n));
}

proof fn numbers_thumb_link(base: PlanInfo, p: PipelineInfo, i: int)
    ensures
        into(links::thumb_link(base, p, i), p.id("mv_comp"@)) == into(base, p.id("mv_comp"@)).push(
            plan::numbered("sink_"@, params::thumb_pad(i)),
        ),
        into(links::thumb_link(base, p, i), p.id("mixer"@)) == into(base, p.id("mixer"@)),
{
    broadcast use {into_add, into_link};

    reveal_strlit("queue_to_mv_thumb_");
    other_idn(p, "queue_to_mv_thumb_"@, i);
    the_compositors_differ(p);
}
proof fn numbers_thumb_links(base: PlanInfo, p: PipelineInfo, n: nat)
    ensures
        into(links::thumb_links(base, p, n), p.id("mv_comp"@)) == into(base, p.id("mv_comp"@)) + sinks(0, n),
        into(links::thumb_links(base, p, n), p.id("mixer"@)) == into(base, p.id("mixer"@)),
    decreases n,
{
    if n > 0 {
        numbers_thumb_links(base, p, (n - 1) as nat);
        numbers_thumb_link(links::thumb_links(base, p, (n - 1) as nat), p, n - 1);
    }
    assert(into(links::thumb_links(base, p, n), p.id("mv_comp"@)) =~= into(base, p.id("mv_comp"@)) + sinks(0, n));
}

proof fn numbers_pgm_link(base: PlanInfo, p: PipelineInfo)
    ensures
        into(gpu::pgm_link(base, p), p.id("mv_comp"@)) == into(base, p.id("mv_comp"@)).push(
            plan::numbered("sink_"@, params::pgm_pad(p.inputs)),
        ),
        into(gpu::pgm_link(base, p), p.id("mixer"@)) == into(base, p.id("mixer"@)),
{
    broadcast use {into_add, into_link};

    reveal_strlit("queue_pgm_mv");
    other_id(p, "queue_pgm_mv"@);
    the_compositors_differ(p);
}
proof fn numbers_pvw_link(base: PlanInfo, p: PipelineInfo, i: int)
    ensures
        into(links::pvw_link(base, p, i), p.id("mv_comp"@)) == into(base, p.id("mv_comp"@)).push(
            plan::numbered("sink_"@, params::pvw_pad(p.inputs, i)),
        ),
        into(links::pvw_link(base, p, i), p.id("mixer"@)) == into(base, p.id("mixer"@)),
{
    broadcast use {into_add, into_link};

    reveal_strlit("queue_to_mv_pvw_");
    other_idn(p, "queue_to_mv_pvw_"@, i);
    the_compositors_differ(p);
}
proof fn numbers_pvw_links(base: PlanInfo, p: PipelineInfo, n: nat)
    ensures
        into(links::pvw_links(base, p, n), p.id("mv_comp"@)) == into(base, p.id("mv_comp"@)) + sinks((p.inputs + 1) as int, n),
        into(links::pvw_links(base, p, n), p.id("mixer"@)) == into(base, p.id("mixer"@)),
    decreases n,
{
    if n > 0 {
        numbers_pvw_links(base, p, (n - 1) as nat);
        numbers_pvw_link(links::pvw_links(base, p, (n - 1) as nat), p, n - 1);
    }
    assert(into(links::pvw_links(base, p, n), p.id("mv_comp"@)) =~= into(base, p.id("mv_comp"@)) + sinks((p.inputs + 1) as int, n));
}

proof fn numbers_pip_link(base: PlanInfo, p: PipelineInfo, pip: int, i: int)
    ensures
        into(links::pip_link(base, p, pip, i), p.id("mv_comp"@)) == into(base, p.id("mv_comp"@)).push(
            plan::numbered("sink_"@, params::pip_pad(p.inputs, pip, i)),
        ),
        into(links::pip_link(base, p, pip, i), p.id("mixer"@)) == into(base, p.id("mixer"@)),
{
    broadcast use {into_add, into_link};

    reveal_strlit("queue_to_mv_pip_");
    other_idnn(p, "queue_to_mv_pip_"@, pip, i);
    the_compositors_differ(p);
}
proof fn numbers_pip_row(base: PlanInfo, p: PipelineInfo, pip: int, n: nat)
    ensures
        into(links::pip_row(base, p, pip, n), p.id("mv_comp"@)) == into(base, p.id("mv_comp"@)) + sinks(params::pip_pad(p.inputs, pip, 0), n),
        into(links::pip_row(base, p, pip, n), p.id("mixer"@)) == into(base, p.id("mixer"@)),
    decreases n,
{
    if n > 0 {
        numbers_pip_row(base, p, pip, (n - 1) as nat);
        numbers_pip_link(links::pip_row(base, p, pip, (n - 1) as nat), p, pip, n - 1);
    }
    assert(into(links::pip_row(base, p, pip, n), p.id("mv_comp"@)) =~= into(base, p.id("mv_comp"@)) + sinks(params::pip_pad(p.inputs, pip, 0), n));
}

proof fn numbers_pip_links(base: PlanInfo, p: PipelineInfo, n: nat)
    ensures
        into(links::pip_links(base, p, n), p.id("mv_comp"@)) == into(base, p.id("mv_comp"@))
            + sinks((2 * p.inputs + 1) as int, n * p.inputs),
        into(links::pip_links(base, p, n), p.id("mixer"@)) == into(base, p.id("mixer"@)),
    decreases n,
{
    if n > 0 {
        let before = links::pip_links(base, p, (n - 1) as nat);
        numbers_pip_links(base, p, (n - 1) as nat);
        numbers_pip_row(before, p, n - 1, p.inputs);
        assert(n * p.inputs == (n - 1) * p.inputs + p.inputs && 0 <= (n - 1) * p.inputs)
            by (nonlinear_arith)
            requires
                n > 0,
        ;
        assert(sinks((2 * p.inputs + 1) as int, n * p.inputs) =~= sinks(
            (2 * p.inputs + 1) as int,
            ((n - 1) * p.inputs) as nat,
        ) + sinks(params::pip_pad(p.inputs, n - 1, 0), p.inputs));
    } else {
        assert(0 * p.inputs == 0) by (nonlinear_arith);
    }
    assert(into(links::pip_links(base, p, n), p.id("mv_comp"@)) =~= into(base, p.id("mv_comp"@))
        + sinks((2 * p.inputs + 1) as int, n * p.inputs));
}

proof fn numbers_overlay_link(base: PlanInfo, p: PipelineInfo)
    ensures
        into(gpu::overlay_link(base, p), p.id("mv_comp"@)) == into(base, p.id("mv_comp"@)).push(
            plan::numbered("sink_"@, params::overlay_pad(p.inputs, p.pips)),
        ),
        into(gpu::overlay_link(base, p), p.id("mixer"@)) == into(base, p.id("mixer"@)),
{
    broadcast use {into_add, into_link};

    the_compositors_differ(p);
}
/// On the graphics processor the connections to either compositor come in the
/// order of its pads, from the first to the last and without a gap.
pub proof fn gpu_pads_are_connected_in_order(p: PipelineInfo)
    ensures
        into(gpu::gpu_plan(p), p.id("mixer"@)) == sinks(0, p.inputs + p.dsks),
        into(gpu::gpu_plan(p), p.id("mv_comp"@)) == sinks(
            0,
            (params::overlay_pad(p.inputs, p.pips) + 1) as nat,
        ),
{
    broadcast use {into_add, into_link};

    let mixer = p.id("mixer"@);
    let mv_comp = p.id("mv_comp"@);
    let s0 = params::compositors(p);
    let s1 = gpu::outputs(s0, p);
    keeps_outputs(s0, p);
    let s2 = gpu::inputs(s1, p, p.inputs);
    keeps_inputs(s1, p, p.inputs);
    let c1 = links::dist_links(s2, p, p.inputs);
    numbers_dist_links(s2, p, p.inputs);
    let c2 = gpu::dsk_links(c1, p, p.dsks);
    numbers_dsk_links(c1, p, p.dsks);
    let c3 = links::thumb_links(c2, p, p.inputs);
    numbers_thumb_links(c2, p, p.inputs);
    let c4 = gpu::pgm_link(c3, p);
    numbers_pgm_link(c3, p);
    let c5 = links::pvw_links(c4, p, p.inputs);
    numbers_pvw_links(c4, p, p.inputs);
    let c6 = links::pip_links(c5, p, p.pips);
    numbers_pip_links(c5, p, p.pips);
    let c7 = gpu::overlay_link(c6, p);
    numbers_overlay_link(c6, p);
    keeps_meters(c7, p, p.inputs);
    keeps_pgm_meter(links::meters(c7, p, p.inputs), p);
    assert(into(s0, mixer) =~= Seq::<Seq<char>>::empty());
    assert(into(s0, mv_comp) =~= Seq::<Seq<char>>::empty());
    assert(into(gpu::gpu_plan(p), mixer) =~= sinks(0, p.inputs + p.dsks));
    assert(0 <= p.pips * p.inputs) by (nonlinear_arith);
    assert(into(gpu::gpu_plan(p), mv_comp) =~= sinks(
        0,
        (params::overlay_pad(p.inputs, p.pips) + 1) as nat,
    ));
}

} // verus!
