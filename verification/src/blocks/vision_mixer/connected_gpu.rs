//! The mixer on the graphics processor is connected throughout.

use crate::blocks::plan;
use crate::blocks::plan::PlanInfo;
use crate::blocks::vision_mixer::connected_links;
use crate::blocks::vision_mixer::gpu;
use crate::blocks::vision_mixer::links;
use crate::blocks::vision_mixer::params;
use crate::blocks::vision_mixer::params::PipelineInfo;
use vstd::prelude::*;

verus! {

proof fn connected_dist_head(base: PlanInfo, p: PipelineInfo)
    requires
        base.links_hold(),
        base.has_element(p.id("mixer"@)),
    ensures
        base.within(gpu::dist_head(base, p)),
        gpu::dist_head(base, p).links_hold(),
        gpu::dist_head(base, p).has_element(p.id("queue_post_dist"@)),
        gpu::dist_head(base, p).has_element(p.id("tee_pgm"@)),
        gpu::dist_head(base, p).has_element(p.id("queue_dist_out"@)),
{
    broadcast use {plan::adding_keeps, plan::linking_keeps};
}

proof fn connected_dist_download(base: PlanInfo, p: PipelineInfo)
    requires
        base.links_hold(),
        base.has_element(p.id("tee_pgm"@)),
        base.has_element(p.id("queue_dist_out"@)),
    ensures
        base.within(gpu::dist_download(base, p)),
        gpu::dist_download(base, p).links_hold(),
        gpu::dist_download(base, p).has_element(p.id("gldownload_dist"@)),
        gpu::dist_download(base, p).has_element(p.id("capsfilter_dist"@)),
{
    broadcast use {plan::adding_keeps, plan::linking_keeps};
}

proof fn connected_dist_glmem(base: PlanInfo, p: PipelineInfo)
    requires
        base.links_hold(),
        base.has_element(p.id("tee_pgm"@)),
        base.has_element(p.id("queue_dist_out"@)),
    ensures
        base.within(gpu::dist_glmem(base, p)),
        gpu::dist_glmem(base, p).links_hold(),
        gpu::dist_glmem(base, p).has_element(p.id("capsfilter_dist"@)),
{
    broadcast use {plan::adding_keeps, plan::linking_keeps};
}

proof fn connected_dist_tail(base: PlanInfo, p: PipelineInfo)
    requires
        base.links_hold(),
        base.has_element(p.id("tee_pgm"@)),
        base.has_element(p.id("queue_dist_out"@)),
    ensures
        base.within(gpu::dist_tail(base, p)),
        gpu::dist_tail(base, p).links_hold(),
        p.gl_download ==> gpu::dist_tail(base, p).has_element(p.id("gldownload_dist"@)),
        gpu::dist_tail(base, p).has_element(p.id("capsfilter_dist"@)),
{
    if p.gl_download {
        connected_dist_download(base, p);
    } else {
        connected_dist_glmem(base, p);
    }
}

proof fn connected_pgm_queue(base: PlanInfo, p: PipelineInfo)
    requires
        base.links_hold(),
    ensures
        base.within(gpu::pgm_queue(base, p)),
        gpu::pgm_queue(base, p).links_hold(),
        gpu::pgm_queue(base, p).has_element(p.id("queue_pgm_mv"@)),
{
    broadcast use {plan::adding_keeps, plan::linking_keeps};
}

proof fn connected_dsk(base: PlanInfo, p: PipelineInfo, i: int)
    requires
        base.links_hold(),
    ensures
        base.within(gpu::dsk(base, p, i)),
        gpu::dsk(base, p, i).links_hold(),
        gpu::dsk(base, p, i).has_element(p.idn("queue_dsk_"@, i)),
        gpu::dsk(base, p, i).has_element(p.idn("glupload_dsk_"@, i)),
        gpu::dsk(base, p, i).has_element(p.idn("glcolorconvert_dsk_"@, i)),
{
    broadcast use {plan::adding_keeps, plan::linking_keeps};
}

proof fn connected_dsks(base: PlanInfo, p: PipelineInfo, n: nat)
    requires
        base.links_hold(),
    ensures
        base.within(gpu::dsks(base, p, n)),
        gpu::dsks(base, p, n).links_hold(),
        forall|i: int| 0 <= i < n ==> gpu::dsks(base, p, n).has_element(#[trigger] p.idn("queue_dsk_"@, i)),
        forall|i: int| 0 <= i < n ==> gpu::dsks(base, p, n).has_element(#[trigger] p.idn("glupload_dsk_"@, i)),
        forall|i: int| 0 <= i < n ==> gpu::dsks(base, p, n).has_element(#[trigger] p.idn("glcolorconvert_dsk_"@, i)),
    decreases n,
{
    if n > 0 {
        let before = gpu::dsks(base, p, (n - 1) as nat);
        connected_dsks(base, p, (n - 1) as nat);
        connected_dsk(before, p, n - 1);
    }
}

proof fn connected_mv_head(base: PlanInfo, p: PipelineInfo)
    requires
        base.links_hold(),
        base.has_element(p.id("mv_comp"@)),
    ensures
        base.within(gpu::mv_head(base, p)),
        gpu::mv_head(base, p).links_hold(),
        gpu::mv_head(base, p).has_element(p.id("queue_post_mv"@)),
        gpu::mv_head(base, p).has_element(p.id("tee_mv"@)),
        gpu::mv_head(base, p).has_element(p.id("queue_mv_out"@)),
{
    broadcast use {plan::adding_keeps, plan::linking_keeps};
}

proof fn connected_mv_download(base: PlanInfo, p: PipelineInfo)
    requires
        base.links_hold(),
        base.has_element(p.id("queue_post_mv"@)),
        base.has_element(p.id("tee_mv"@)),
    ensures
        base.within(gpu::mv_download(base, p)),
        gpu::mv_download(base, p).links_hold(),
        gpu::mv_download(base, p).has_element(p.id("gldownload_mv"@)),
        gpu::mv_download(base, p).has_element(p.id("capsfilter_mv"@)),
{
    broadcast use {plan::adding_keeps, plan::linking_keeps};
}

proof fn connected_mv_glmem(base: PlanInfo, p: PipelineInfo)
    requires
        base.links_hold(),
        base.has_element(p.id("queue_post_mv"@)),
        base.has_element(p.id("tee_mv"@)),
    ensures
        base.within(gpu::mv_glmem(base, p)),
        gpu::mv_glmem(base, p).links_hold(),
        gpu::mv_glmem(base, p).has_element(p.id("capsfilter_mv"@)),
{
    broadcast use {plan::adding_keeps, plan::linking_keeps};
}

proof fn connected_mv_tail(base: PlanInfo, p: PipelineInfo)
    requires
        base.links_hold(),
        base.has_element(p.id("queue_post_mv"@)),
        base.has_element(p.id("tee_mv"@)),
    ensures
        base.within(gpu::mv_tail(base, p)),
        gpu::mv_tail(base, p).links_hold(),
        p.gl_download ==> gpu::mv_tail(base, p).has_element(p.id("gldownload_mv"@)),
        gpu::mv_tail(base, p).has_element(p.id("capsfilter_mv"@)),
{
    if p.gl_download {
        connected_mv_download(base, p);
    } else {
        connected_mv_glmem(base, p);
    }
}

proof fn connected_mv_out(base: PlanInfo, p: PipelineInfo)
    requires
        base.links_hold(),
        base.has_element(p.id("tee_mv"@)),
        base.has_element(p.id("queue_mv_out"@)),
    ensures
        base.within(gpu::mv_out(base, p)),
        gpu::mv_out(base, p).links_hold(),
        gpu::mv_out(base, p).has_element(p.id("appsrc_overlay"@)),
        gpu::mv_out(base, p).has_element(p.id("queue_overlay"@)),
        gpu::mv_out(base, p).has_element(p.id("glupload_overlay"@)),
{
    broadcast use {plan::adding_keeps, plan::linking_keeps};
}

proof fn connected_input_head(base: PlanInfo, p: PipelineInfo, i: int)
    requires
        base.links_hold(),
    ensures
        base.within(gpu::input_head(base, p, i)),
        gpu::input_head(base, p, i).links_hold(),
        gpu::input_head(base, p, i).has_element(p.idn("queue_"@, i)),
        gpu::input_head(base, p, i).has_element(p.idn("glupload_"@, i)),
        gpu::input_head(base, p, i).has_element(p.idn("glcolorconvert_"@, i)),
        gpu::input_head(base, p, i).has_element(p.idn("tee_"@, i)),
        gpu::input_head(base, p, i).has_element(p.idn("queue_to_dist_"@, i)),
        gpu::input_head(base, p, i).has_element(p.idn("queue_to_mv_thumb_"@, i)),
        gpu::input_head(base, p, i).has_element(p.idn("queue_to_mv_pvw_"@, i)),
{
    broadcast use {plan::adding_keeps, plan::linking_keeps};
}

proof fn connected_tile_queue(base: PlanInfo, p: PipelineInfo, i: int, pip: int)
    requires
        base.links_hold(),
    ensures
        base.within(gpu::tile_queue(base, p, i, pip)),
        gpu::tile_queue(base, p, i, pip).links_hold(),
        gpu::tile_queue(base, p, i, pip).has_element(p.idnn("queue_to_mv_pip_"@, pip, i)),
{
    broadcast use {plan::adding_keeps, plan::linking_keeps};
}

proof fn connected_tile_queues(base: PlanInfo, p: PipelineInfo, i: int, n: nat)
    requires
        base.links_hold(),
    ensures
        base.within(gpu::tile_queues(base, p, i, n)),
        gpu::tile_queues(base, p, i, n).links_hold(),
        forall|pip: int| 0 <= pip < n ==> gpu::tile_queues(base, p, i, n).has_element(#[trigger] p.idnn("queue_to_mv_pip_"@, pip, i)),
    decreases n,
{
    if n > 0 {
        let before = gpu::tile_queues(base, p, i, (n - 1) as nat);
        connected_tile_queues(base, p, i, (n - 1) as nat);
        connected_tile_queue(before, p, i, n - 1);
    }
}

proof fn connected_input_links(base: PlanInfo, p: PipelineInfo, i: int)
    requires
        base.links_hold(),
        base.has_element(p.idn("queue_"@, i)),
        base.has_element(p.idn("glupload_"@, i)),
        base.has_element(p.idn("glcolorconvert_"@, i)),
        base.has_element(p.idn("tee_"@, i)),
    ensures
        base.within(gpu::input_links(base, p, i)),
        gpu::input_links(base, p, i).links_hold(),
{
    broadcast use {plan::adding_keeps, plan::linking_keeps};
}

proof fn connected_input(base: PlanInfo, p: PipelineInfo, i: int)
    requires
        base.links_hold(),
    ensures
        base.within(gpu::input(base, p, i)),
        gpu::input(base, p, i).links_hold(),
        gpu::input(base, p, i).has_element(p.idn("queue_"@, i)),
        gpu::input(base, p, i).has_element(p.idn("glupload_"@, i)),
        gpu::input(base, p, i).has_element(p.idn("glcolorconvert_"@, i)),
        gpu::input(base, p, i).has_element(p.idn("tee_"@, i)),
        gpu::input(base, p, i).has_element(p.idn("queue_to_dist_"@, i)),
        gpu::input(base, p, i).has_element(p.idn("queue_to_mv_thumb_"@, i)),
        gpu::input(base, p, i).has_element(p.idn("queue_to_mv_pvw_"@, i)),
        forall|pip: int| 0 <= pip < p.pips ==> gpu::input(base, p, i).has_element(#[trigger] p.idnn("queue_to_mv_pip_"@, pip, i)),
{
    let s1 = gpu::input_head(base, p, i);
    connected_input_head(base, p, i);
    let s2 = gpu::tile_queues(s1, p, i, p.pips);
    connected_tile_queues(s1, p, i, p.pips);
    connected_input_links(s2, p, i);
}

proof fn connected_inputs(base: PlanInfo, p: PipelineInfo, n: nat)
    requires
        base.links_hold(),
    ensures
        base.within(gpu::inputs(base, p, n)),
        gpu::inputs(base, p, n).links_hold(),
        forall|i: int| 0 <= i < n ==> gpu::inputs(base, p, n).has_element(#[trigger] p.idn("queue_"@, i)),
        forall|i: int| 0 <= i < n ==> gpu::inputs(base, p, n).has_element(#[trigger] p.idn("glupload_"@, i)),
        forall|i: int| 0 <= i < n ==> gpu::inputs(base, p, n).has_element(#[trigger] p.idn("glcolorconvert_"@, i)),
        forall|i: int| 0 <= i < n ==> gpu::inputs(base, p, n).has_element(#[trigger] p.idn("tee_"@, i)),
        forall|i: int| 0 <= i < n ==> gpu::inputs(base, p, n).has_element(#[trigger] p.idn("queue_to_dist_"@, i)),
        forall|i: int| 0 <= i < n ==> gpu::inputs(base, p, n).has_element(#[trigger] p.idn("queue_to_mv_thumb_"@, i)),
        forall|i: int| 0 <= i < n ==> gpu::inputs(base, p, n).has_element(#[trigger] p.idn("queue_to_mv_pvw_"@, i)),
        forall|pip: int, i: int| 0 <= pip < p.pips && 0 <= i < n ==> gpu::inputs(base, p, n).has_element(#[trigger] p.idnn("queue_to_mv_pip_"@, pip, i)),
    decreases n,
{
    if n > 0 {
        let before = gpu::inputs(base, p, (n - 1) as nat);
        connected_inputs(base, p, (n - 1) as nat);
        connected_input(before, p, n - 1);
    }
}

proof fn connected_dsk_link(base: PlanInfo, p: PipelineInfo, i: int)
    requires
        base.links_hold(),
        base.has_element(p.idn("glcolorconvert_dsk_"@, i)),
        base.has_element(p.id("mixer"@)),
    ensures
        base.within(gpu::dsk_link(base, p, i)),
        gpu::dsk_link(base, p, i).links_hold(),
{
    broadcast use {plan::adding_keeps, plan::linking_keeps};
}

proof fn connected_dsk_links(base: PlanInfo, p: PipelineInfo, n: nat)
    requires
        base.links_hold(),
        forall|i: int| 0 <= i < n ==> base.has_element(#[trigger] p.idn("glcolorconvert_dsk_"@, i)),
        base.has_element(p.id("mixer"@)),
    ensures
        base.within(gpu::dsk_links(base, p, n)),
        gpu::dsk_links(base, p, n).links_hold(),
    decreases n,
{
    if n > 0 {
        let before = gpu::dsk_links(base, p, (n - 1) as nat);
        connected_dsk_links(base, p, (n - 1) as nat);
        connected_dsk_link(before, p, n - 1);
    }
}

proof fn connected_pgm_link(base: PlanInfo, p: PipelineInfo)
    requires
        base.links_hold(),
        base.has_element(p.id("tee_pgm"@)),
        base.has_element(p.id("queue_pgm_mv"@)),
        base.has_element(p.id("mv_comp"@)),
    ensures
        base.within(gpu::pgm_link(base, p)),
        gpu::pgm_link(base, p).links_hold(),
{
    broadcast use {plan::adding_keeps, plan::linking_keeps};
}

proof fn connected_overlay_link(base: PlanInfo, p: PipelineInfo)
    requires
        base.links_hold(),
        base.has_element(p.id("glupload_overlay"@)),
        base.has_element(p.id("mv_comp"@)),
    ensures
        base.within(gpu::overlay_link(base, p)),
        gpu::overlay_link(base, p).links_hold(),
{
    broadcast use {plan::adding_keeps, plan::linking_keeps};
}

proof fn connected_outputs(base: PlanInfo, p: PipelineInfo)
    requires
        base.links_hold(),
        base.has_element(p.id("mixer"@)),
        base.has_element(p.id("mv_comp"@)),
    ensures
        base.within(gpu::outputs(base, p)),
        gpu::outputs(base, p).links_hold(),
        gpu::outputs(base, p).has_element(p.id("queue_post_dist"@)),
        gpu::outputs(base, p).has_element(p.id("tee_pgm"@)),
        gpu::outputs(base, p).has_element(p.id("queue_dist_out"@)),
        p.gl_download ==> gpu::outputs(base, p).has_element(p.id("gldownload_dist"@)),
        gpu::outputs(base, p).has_element(p.id("capsfilter_dist"@)),
        gpu::outputs(base, p).has_element(p.id("queue_pgm_mv"@)),
        forall|i: int| 0 <= i < p.dsks ==> gpu::outputs(base, p).has_element(#[trigger] p.idn("queue_dsk_"@, i)),
        forall|i: int| 0 <= i < p.dsks ==> gpu::outputs(base, p).has_element(#[trigger] p.idn("glupload_dsk_"@, i)),
        forall|i: int| 0 <= i < p.dsks ==> gpu::outputs(base, p).has_element(#[trigger] p.idn("glcolorconvert_dsk_"@, i)),
        gpu::outputs(base, p).has_element(p.id("queue_post_mv"@)),
        gpu::outputs(base, p).has_element(p.id("tee_mv"@)),
        gpu::outputs(base, p).has_element(p.id("queue_mv_out"@)),
        p.gl_download ==> gpu::outputs(base, p).has_element(p.id("gldownload_mv"@)),
        gpu::outputs(base, p).has_element(p.id("capsfilter_mv"@)),
        gpu::outputs(base, p).has_element(p.id("appsrc_overlay"@)),
        gpu::outputs(base, p).has_element(p.id("queue_overlay"@)),
        gpu::outputs(base, p).has_element(p.id("glupload_overlay"@)),
{
    let s1 = gpu::dist_head(base, p);
    connected_dist_head(base, p);
    let s2 = gpu::dist_tail(s1, p);
    connected_dist_tail(s1, p);
    let s3 = gpu::pgm_queue(s2, p);
    connected_pgm_queue(s2, p);
    let s4 = gpu::dsks(s3, p, p.dsks);
    connected_dsks(s3, p, p.dsks);
    let s5 = gpu::mv_head(s4, p);
    connected_mv_head(s4, p);
    let s6 = gpu::mv_tail(s5, p);
    connected_mv_tail(s5, p);
    connected_mv_out(s6, p);
}

proof fn connected_connections(base: PlanInfo, p: PipelineInfo)
    requires
        base.links_hold(),
        forall|i: int| 0 <= i < p.inputs ==> base.has_element(#[trigger] p.idn("tee_"@, i)),
        forall|i: int| 0 <= i < p.inputs ==> base.has_element(#[trigger] p.idn("queue_to_dist_"@, i)),
        base.has_element(p.id("mixer"@)),
        forall|i: int| 0 <= i < p.dsks ==> base.has_element(#[trigger] p.idn("glcolorconvert_dsk_"@, i)),
        forall|i: int| 0 <= i < p.inputs ==> base.has_element(#[trigger] p.idn("queue_to_mv_thumb_"@, i)),
        base.has_element(p.id("mv_comp"@)),
        base.has_element(p.id("tee_pgm"@)),
        base.has_element(p.id("queue_pgm_mv"@)),
        forall|i: int| 0 <= i < p.inputs ==> base.has_element(#[trigger] p.idn("queue_to_mv_pvw_"@, i)),
        forall|i: int, pip: int| 0 <= i < p.inputs && 0 <= pip < p.pips ==> base.has_element(#[trigger] p.idnn("queue_to_mv_pip_"@, pip, i)),
        base.has_element(p.id("glupload_overlay"@)),
    ensures
        base.within(gpu::connections(base, p)),
        gpu::connections(base, p).links_hold(),
{
    let s1 = links::dist_links(base, p, p.inputs);
    connected_links::connected_dist_links(base, p, p.inputs);
    let s2 = gpu::dsk_links(s1, p, p.dsks);
    connected_dsk_links(s1, p, p.dsks);
    let s3 = links::thumb_links(s2, p, p.inputs);
    connected_links::connected_thumb_links(s2, p, p.inputs);
    let s4 = gpu::pgm_link(s3, p);
    connected_pgm_link(s3, p);
    let s5 = links::pvw_links(s4, p, p.inputs);
    connected_links::connected_pvw_links(s4, p, p.inputs);
    let s6 = links::pip_links(s5, p, p.pips);
    connected_links::connected_pip_links(s5, p, p.pips);
    connected_overlay_link(s6, p);
}
/// Every connection inside the mixer is between elements of the mixer, and
/// every pad that the block shows is a pad of one of them.
pub proof fn gpu_mixer_is_connected(p: PipelineInfo)
    ensures
        gpu::gpu_plan(p).links_hold(),
        forall|i: int|
            0 <= i < p.inputs ==> gpu::gpu_plan(p).has_element(#[trigger] p.idn("queue_"@, i)),
        forall|i: int|
            0 <= i < p.dsks ==> gpu::gpu_plan(p).has_element(#[trigger] p.idn("queue_dsk_"@, i)),
        forall|i: int|
            0 <= i < p.inputs ==> gpu::gpu_plan(p).has_element(
                #[trigger] p.idn("queue_audio_"@, i),
            ),
        gpu::gpu_plan(p).has_element(p.id("queue_audio_pgm"@)),
        gpu::gpu_plan(p).has_element(p.id("queue_dist_out"@)),
        gpu::gpu_plan(p).has_element(p.id("queue_mv_out"@)),
{
    broadcast use {plan::adding_keeps, plan::linking_keeps};

    let s0 = params::compositors(p);
    assert(plan::empty_plan().links_hold());
    assert(s0.links_hold() && s0.has_element(p.id("mixer"@)) && s0.has_element(p.id("mv_comp"@)));
    let s1 = gpu::outputs(s0, p);
    connected_outputs(s0, p);
    let s2 = gpu::inputs(s1, p, p.inputs);
    connected_inputs(s1, p, p.inputs);
    let s3 = gpu::connections(s2, p);
    connected_connections(s2, p);
    connected_links::connected_audio_meters(s3, p);
}

} // verus!
