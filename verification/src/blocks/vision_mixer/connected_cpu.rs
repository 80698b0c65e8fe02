//! The mixer without a graphics processor is connected throughout.

use crate::blocks::plan;
use crate::blocks::plan::PlanInfo;
use crate::blocks::vision_mixer::connected_links;
use crate::blocks::vision_mixer::cpu;
use crate::blocks::vision_mixer::links;
use crate::blocks::vision_mixer::params;
use crate::blocks::vision_mixer::params::PipelineInfo;
use vstd::prelude::*;

verus! {

proof fn connected_dist_output(base: PlanInfo, p: PipelineInfo)
    requires
        base.links_hold(),
        base.has_element(p.id("mixer"@)),
    ensures
        base.within(cpu::dist_output(base, p)),
        cpu::dist_output(base, p).links_hold(),
        cpu::dist_output(base, p).has_element(p.id("capsfilter_dist"@)),
        cpu::dist_output(base, p).has_element(p.id("tee_pgm"@)),
        cpu::dist_output(base, p).has_element(p.id("queue_dist_out"@)),
        cpu::dist_output(base, p).has_element(p.id("queue_pgm_mv"@)),
        cpu::dist_output(base, p).has_element(p.id("capsfilter_pgm_mv"@)),
{
    broadcast use {plan::adding_keeps, plan::linking_keeps};
}

proof fn connected_dsk_head(base: PlanInfo, p: PipelineInfo, i: int)
    requires
        base.links_hold(),
    ensures
        base.within(cpu::dsk_head(base, p, i)),
        cpu::dsk_head(base, p, i).links_hold(),
        cpu::dsk_head(base, p, i).has_element(p.idn("queue_dsk_"@, i)),
        cpu::dsk_head(base, p, i).has_element(p.idn("videoconvert_dsk_"@, i)),
{
    broadcast use {plan::adding_keeps, plan::linking_keeps};
}

proof fn connected_dsk_format(base: PlanInfo, p: PipelineInfo, i: int, f: Seq<char>)
    requires
        base.links_hold(),
        base.has_element(p.idn("videoconvert_dsk_"@, i)),
    ensures
        base.within(cpu::dsk_format(base, p, i, f)),
        cpu::dsk_format(base, p, i, f).links_hold(),
        cpu::dsk_format(base, p, i, f).has_element(p.idn("capsfilter_dsk_"@, i)),
{
    broadcast use {plan::adding_keeps, plan::linking_keeps};
}

proof fn connected_dsk_tail(base: PlanInfo, p: PipelineInfo, i: int)
    requires
        base.links_hold(),
        base.has_element(p.idn("videoconvert_dsk_"@, i)),
    ensures
        base.within(cpu::dsk_tail(base, p, i)),
        cpu::dsk_tail(base, p, i).links_hold(),
        p.format is Some ==> cpu::dsk_tail(base, p, i).has_element(p.idn("capsfilter_dsk_"@, i)),
{
    match p.format {
        Some(f) => connected_dsk_format(base, p, i, f),
        None => {},
    }
}

proof fn connected_dsk(base: PlanInfo, p: PipelineInfo, i: int)
    requires
        base.links_hold(),
    ensures
        base.within(cpu::dsk(base, p, i)),
        cpu::dsk(base, p, i).links_hold(),
        cpu::dsk(base, p, i).has_element(p.idn("queue_dsk_"@, i)),
        cpu::dsk(base, p, i).has_element(p.idn("videoconvert_dsk_"@, i)),
        p.format is Some ==> cpu::dsk(base, p, i).has_element(p.idn("capsfilter_dsk_"@, i)),
{
    let s1 = cpu::dsk_head(base, p, i);
    connected_dsk_head(base, p, i);
    connected_dsk_tail(s1, p, i);
}

proof fn connected_dsks(base: PlanInfo, p: PipelineInfo, n: nat)
    requires
        base.links_hold(),
    ensures
        base.within(cpu::dsks(base, p, n)),
        cpu::dsks(base, p, n).links_hold(),
        forall|i: int| 0 <= i < n ==> cpu::dsks(base, p, n).has_element(#[trigger] p.idn("queue_dsk_"@, i)),
        forall|i: int| 0 <= i < n ==> cpu::dsks(base, p, n).has_element(#[trigger] p.idn("videoconvert_dsk_"@, i)),
        forall|i: int| 0 <= i < n && p.format is Some ==> cpu::dsks(base, p, n).has_element(#[trigger] p.idn("capsfilter_dsk_"@, i)),
    decreases n,
{
    if n > 0 {
        let before = cpu::dsks(base, p, (n - 1) as nat);
        connected_dsks(base, p, (n - 1) as nat);
        connected_dsk(before, p, n - 1);
    }
}

proof fn connected_mv_output(base: PlanInfo, p: PipelineInfo)
    requires
        base.links_hold(),
        base.has_element(p.id("mv_comp"@)),
    ensures
        base.within(cpu::mv_output(base, p)),
        cpu::mv_output(base, p).links_hold(),
        cpu::mv_output(base, p).has_element(p.id("capsfilter_mv"@)),
        cpu::mv_output(base, p).has_element(p.id("tee_mv"@)),
        cpu::mv_output(base, p).has_element(p.id("queue_mv_out"@)),
{
    broadcast use {plan::adding_keeps, plan::linking_keeps};
}

proof fn connected_overlay_head(base: PlanInfo, p: PipelineInfo)
    requires
        base.links_hold(),
    ensures
        base.within(cpu::overlay_head(base, p)),
        cpu::overlay_head(base, p).links_hold(),
        cpu::overlay_head(base, p).has_element(p.id("appsrc_overlay"@)),
        cpu::overlay_head(base, p).has_element(p.id("queue_overlay"@)),
        cpu::overlay_head(base, p).has_element(p.id("videoconvert_overlay"@)),
{
    broadcast use {plan::adding_keeps, plan::linking_keeps};
}

proof fn connected_overlay_format(base: PlanInfo, p: PipelineInfo, f: Seq<char>)
    requires
        base.links_hold(),
        base.has_element(p.id("videoconvert_overlay"@)),
    ensures
        base.within(cpu::overlay_format(base, p, f)),
        cpu::overlay_format(base, p, f).links_hold(),
        cpu::overlay_format(base, p, f).has_element(p.id("capsfilter_overlay"@)),
{
    broadcast use {plan::adding_keeps, plan::linking_keeps};
}

proof fn connected_overlay_tail(base: PlanInfo, p: PipelineInfo)
    requires
        base.links_hold(),
        base.has_element(p.id("videoconvert_overlay"@)),
    ensures
        base.within(cpu::overlay_tail(base, p)),
        cpu::overlay_tail(base, p).links_hold(),
        p.format is Some ==> cpu::overlay_tail(base, p).has_element(p.id("capsfilter_overlay"@)),
{
    match p.format {
        Some(f) => connected_overlay_format(base, p, f),
        None => {},
    }
}

proof fn connected_overlay(base: PlanInfo, p: PipelineInfo)
    requires
        base.links_hold(),
    ensures
        base.within(cpu::overlay(base, p)),
        cpu::overlay(base, p).links_hold(),
        cpu::overlay(base, p).has_element(p.id("appsrc_overlay"@)),
        cpu::overlay(base, p).has_element(p.id("queue_overlay"@)),
        cpu::overlay(base, p).has_element(p.id("videoconvert_overlay"@)),
        p.format is Some ==> cpu::overlay(base, p).has_element(p.id("capsfilter_overlay"@)),
{
    let s1 = cpu::overlay_head(base, p);
    connected_overlay_head(base, p);
    connected_overlay_tail(s1, p);
}

proof fn connected_pgm_overlay_head(base: PlanInfo, p: PipelineInfo)
    requires
        base.links_hold(),
    ensures
        base.within(cpu::pgm_overlay_head(base, p)),
        cpu::pgm_overlay_head(base, p).links_hold(),
        cpu::pgm_overlay_head(base, p).has_element(p.id("appsrc_pgm_overlay"@)),
        cpu::pgm_overlay_head(base, p).has_element(p.id("queue_pgm_overlay"@)),
        cpu::pgm_overlay_head(base, p).has_element(p.id("videoconvert_pgm_overlay"@)),
{
    broadcast use {plan::adding_keeps, plan::linking_keeps};
}

proof fn connected_pgm_overlay_format(base: PlanInfo, p: PipelineInfo, f: Seq<char>)
    requires
        base.links_hold(),
        base.has_element(p.id("videoconvert_pgm_overlay"@)),
    ensures
        base.within(cpu::pgm_overlay_format(base, p, f)),
        cpu::pgm_overlay_format(base, p, f).links_hold(),
        cpu::pgm_overlay_format(base, p, f).has_element(p.id("capsfilter_pgm_overlay"@)),
{
    broadcast use {plan::adding_keeps, plan::linking_keeps};
}

proof fn connected_pgm_overlay_tail(base: PlanInfo, p: PipelineInfo)
    requires
        base.links_hold(),
        base.has_element(p.id("videoconvert_pgm_overlay"@)),
    ensures
        base.within(cpu::pgm_overlay_tail(base, p)),
        cpu::pgm_overlay_tail(base, p).links_hold(),
        p.format is Some ==> cpu::pgm_overlay_tail(base, p).has_element(p.id("capsfilter_pgm_overlay"@)),
{
    match p.format {
        Some(f) => connected_pgm_overlay_format(base, p, f),
        None => {},
    }
}

proof fn connected_pgm_overlay_parts(base: PlanInfo, p: PipelineInfo)
    requires
        base.links_hold(),
    ensures
        base.within(cpu::pgm_overlay_parts(base, p)),
        cpu::pgm_overlay_parts(base, p).links_hold(),
        cpu::pgm_overlay_parts(base, p).has_element(p.id("appsrc_pgm_overlay"@)),
        cpu::pgm_overlay_parts(base, p).has_element(p.id("queue_pgm_overlay"@)),
        cpu::pgm_overlay_parts(base, p).has_element(p.id("videoconvert_pgm_overlay"@)),
        p.format is Some ==> cpu::pgm_overlay_parts(base, p).has_element(p.id("capsfilter_pgm_overlay"@)),
{
    let s1 = cpu::pgm_overlay_head(base, p);
    connected_pgm_overlay_head(base, p);
    connected_pgm_overlay_tail(s1, p);
}

proof fn connected_pgm_overlay(base: PlanInfo, p: PipelineInfo)
    requires
        base.links_hold(),
    ensures
        base.within(cpu::pgm_overlay(base, p)),
        cpu::pgm_overlay(base, p).links_hold(),
        p.pips > 0 ==> cpu::pgm_overlay(base, p).has_element(p.id("appsrc_pgm_overlay"@)),
        p.pips > 0 ==> cpu::pgm_overlay(base, p).has_element(p.id("queue_pgm_overlay"@)),
        p.pips > 0 ==> cpu::pgm_overlay(base, p).has_element(p.id("videoconvert_pgm_overlay"@)),
        p.pips > 0 && p.format is Some ==> cpu::pgm_overlay(base, p).has_element(p.id("capsfilter_pgm_overlay"@)),
{
    if p.pips > 0 {
        connected_pgm_overlay_parts(base, p);
    }
}

proof fn connected_input_plain(base: PlanInfo, p: PipelineInfo, i: int)
    requires
        base.links_hold(),
    ensures
        base.within(cpu::input_plain(base, p, i)),
        cpu::input_plain(base, p, i).links_hold(),
        cpu::input_plain(base, p, i).has_element(p.idn("queue_"@, i)),
        cpu::input_plain(base, p, i).has_element(p.idn("videoconvert_"@, i)),
        cpu::input_plain(base, p, i).has_element(p.idn("tee_"@, i)),
{
    broadcast use {plan::adding_keeps, plan::linking_keeps};
}

proof fn connected_input_format(base: PlanInfo, p: PipelineInfo, i: int, f: Seq<char>)
    requires
        base.links_hold(),
    ensures
        base.within(cpu::input_format(base, p, i, f)),
        cpu::input_format(base, p, i, f).links_hold(),
        cpu::input_format(base, p, i, f).has_element(p.idn("queue_"@, i)),
        cpu::input_format(base, p, i, f).has_element(p.idn("videoconvert_"@, i)),
        cpu::input_format(base, p, i, f).has_element(p.idn("capsfilter_in_"@, i)),
        cpu::input_format(base, p, i, f).has_element(p.idn("tee_"@, i)),
{
    broadcast use {plan::adding_keeps, plan::linking_keeps};
}

proof fn connected_input_head(base: PlanInfo, p: PipelineInfo, i: int)
    requires
        base.links_hold(),
    ensures
        base.within(cpu::input_head(base, p, i)),
        cpu::input_head(base, p, i).links_hold(),
        cpu::input_head(base, p, i).has_element(p.idn("queue_"@, i)),
        cpu::input_head(base, p, i).has_element(p.idn("videoconvert_"@, i)),
        p.format is Some ==> cpu::input_head(base, p, i).has_element(p.idn("capsfilter_in_"@, i)),
        cpu::input_head(base, p, i).has_element(p.idn("tee_"@, i)),
{
    match p.format {
        Some(f) => connected_input_format(base, p, i, f),
        None => connected_input_plain(base, p, i),
    }
}

proof fn connected_input_queues(base: PlanInfo, p: PipelineInfo, i: int)
    requires
        base.links_hold(),
    ensures
        base.within(cpu::input_queues(base, p, i)),
        cpu::input_queues(base, p, i).links_hold(),
        cpu::input_queues(base, p, i).has_element(p.idn("queue_to_dist_"@, i)),
        cpu::input_queues(base, p, i).has_element(p.idn("queue_to_mv_thumb_"@, i)),
        cpu::input_queues(base, p, i).has_element(p.idn("queue_to_mv_pvw_"@, i)),
{
    broadcast use {plan::adding_keeps, plan::linking_keeps};
}

proof fn connected_input_crops(base: PlanInfo, p: PipelineInfo, i: int)
    requires
        base.links_hold(),
    ensures
        base.within(cpu::input_crops(base, p, i)),
        cpu::input_crops(base, p, i).links_hold(),
        cpu::input_crops(base, p, i).has_element(p.idn("videocrop_dist_"@, i)),
        cpu::input_crops(base, p, i).has_element(p.idn("videocrop_pvw_"@, i)),
{
    broadcast use {plan::adding_keeps, plan::linking_keeps};
}

proof fn connected_tile_queue(base: PlanInfo, p: PipelineInfo, i: int, pip: int)
    requires
        base.links_hold(),
    ensures
        base.within(cpu::tile_queue(base, p, i, pip)),
        cpu::tile_queue(base, p, i, pip).links_hold(),
        cpu::tile_queue(base, p, i, pip).has_element(p.idnn("queue_to_mv_pip_"@, pip, i)),
{
    broadcast use {plan::adding_keeps, plan::linking_keeps};
}

proof fn connected_cropped_tile_queue(base: PlanInfo, p: PipelineInfo, i: int, pip: int)
    requires
        base.links_hold(),
    ensures
        base.within(cpu::cropped_tile_queue(base, p, i, pip)),
        cpu::cropped_tile_queue(base, p, i, pip).links_hold(),
        cpu::cropped_tile_queue(base, p, i, pip).has_element(p.idnn("queue_to_mv_pip_"@, pip, i)),
        cpu::cropped_tile_queue(base, p, i, pip).has_element(p.idnn("videocrop_pip_"@, pip, i)),
{
    broadcast use {plan::adding_keeps, plan::linking_keeps};
}

proof fn connected_tile_queues(base: PlanInfo, p: PipelineInfo, i: int, n: nat)
    requires
        base.links_hold(),
    ensures
        base.within(cpu::tile_queues(base, p, i, n)),
        cpu::tile_queues(base, p, i, n).links_hold(),
        forall|pip: int| 0 <= pip < n ==> cpu::tile_queues(base, p, i, n).has_element(#[trigger] p.idnn("queue_to_mv_pip_"@, pip, i)),
    decreases n,
{
    if n > 0 {
        let before = cpu::tile_queues(base, p, i, (n - 1) as nat);
        connected_tile_queues(base, p, i, (n - 1) as nat);
        connected_tile_queue(before, p, i, n - 1);
    }
}

proof fn connected_cropped_tile_queues(base: PlanInfo, p: PipelineInfo, i: int, n: nat)
    requires
        base.links_hold(),
    ensures
        base.within(cpu::cropped_tile_queues(base, p, i, n)),
        cpu::cropped_tile_queues(base, p, i, n).links_hold(),
        forall|pip: int| 0 <= pip < n ==> cpu::cropped_tile_queues(base, p, i, n).has_element(#[trigger] p.idnn("queue_to_mv_pip_"@, pip, i)),
        forall|pip: int| 0 <= pip < n ==> cpu::cropped_tile_queues(base, p, i, n).has_element(#[trigger] p.idnn("videocrop_pip_"@, pip, i)),
    decreases n,
{
    if n > 0 {
        let before = cpu::cropped_tile_queues(base, p, i, (n - 1) as nat);
        connected_cropped_tile_queues(base, p, i, (n - 1) as nat);
        connected_cropped_tile_queue(before, p, i, n - 1);
    }
}

proof fn connected_input(base: PlanInfo, p: PipelineInfo, i: int)
    requires
        base.links_hold(),
    ensures
        base.within(cpu::input(base, p, i)),
        cpu::input(base, p, i).links_hold(),
        cpu::input(base, p, i).has_element(p.idn("queue_"@, i)),
        cpu::input(base, p, i).has_element(p.idn("videoconvert_"@, i)),
        p.format is Some ==> cpu::input(base, p, i).has_element(p.idn("capsfilter_in_"@, i)),
        cpu::input(base, p, i).has_element(p.idn("tee_"@, i)),
        cpu::input(base, p, i).has_element(p.idn("queue_to_dist_"@, i)),
        cpu::input(base, p, i).has_element(p.idn("queue_to_mv_thumb_"@, i)),
        cpu::input(base, p, i).has_element(p.idn("queue_to_mv_pvw_"@, i)),
        forall|pip: int| 0 <= pip < p.pips ==> cpu::input(base, p, i).has_element(#[trigger] p.idnn("queue_to_mv_pip_"@, pip, i)),
{
    let s1 = cpu::input_head(base, p, i);
    connected_input_head(base, p, i);
    let s2 = cpu::input_queues(s1, p, i);
    connected_input_queues(s1, p, i);
    connected_tile_queues(s2, p, i, p.pips);
}

proof fn connected_inputs(base: PlanInfo, p: PipelineInfo, n: nat)
    requires
        base.links_hold(),
    ensures
        base.within(cpu::inputs(base, p, n)),
        cpu::inputs(base, p, n).links_hold(),
        forall|i: int| 0 <= i < n ==> cpu::inputs(base, p, n).has_element(#[trigger] p.idn("queue_"@, i)),
        forall|i: int| 0 <= i < n ==> cpu::inputs(base, p, n).has_element(#[trigger] p.idn("videoconvert_"@, i)),
        forall|i: int| 0 <= i < n && p.format is Some ==> cpu::inputs(base, p, n).has_element(#[trigger] p.idn("capsfilter_in_"@, i)),
        forall|i: int| 0 <= i < n ==> cpu::inputs(base, p, n).has_element(#[trigger] p.idn("tee_"@, i)),
        forall|i: int| 0 <= i < n ==> cpu::inputs(base, p, n).has_element(#[trigger] p.idn("queue_to_dist_"@, i)),
        forall|i: int| 0 <= i < n ==> cpu::inputs(base, p, n).has_element(#[trigger] p.idn("queue_to_mv_thumb_"@, i)),
        forall|i: int| 0 <= i < n ==> cpu::inputs(base, p, n).has_element(#[trigger] p.idn("queue_to_mv_pvw_"@, i)),
        forall|pip: int, i: int| 0 <= pip < p.pips && 0 <= i < n ==> cpu::inputs(base, p, n).has_element(#[trigger] p.idnn("queue_to_mv_pip_"@, pip, i)),
    decreases n,
{
    if n > 0 {
        let before = cpu::inputs(base, p, (n - 1) as nat);
        connected_inputs(base, p, (n - 1) as nat);
        connected_input(before, p, n - 1);
    }
}

proof fn connected_cropped_input(base: PlanInfo, p: PipelineInfo, i: int)
    requires
        base.links_hold(),
    ensures
        base.within(cpu::cropped_input(base, p, i)),
        cpu::cropped_input(base, p, i).links_hold(),
        cpu::cropped_input(base, p, i).has_element(p.idn("queue_"@, i)),
        cpu::cropped_input(base, p, i).has_element(p.idn("videoconvert_"@, i)),
        p.format is Some ==> cpu::cropped_input(base, p, i).has_element(p.idn("capsfilter_in_"@, i)),
        cpu::cropped_input(base, p, i).has_element(p.idn("tee_"@, i)),
        cpu::cropped_input(base, p, i).has_element(p.idn("queue_to_dist_"@, i)),
        cpu::cropped_input(base, p, i).has_element(p.idn("queue_to_mv_thumb_"@, i)),
        cpu::cropped_input(base, p, i).has_element(p.idn("queue_to_mv_pvw_"@, i)),
        cpu::cropped_input(base, p, i).has_element(p.idn("videocrop_dist_"@, i)),
        cpu::cropped_input(base, p, i).has_element(p.idn("videocrop_pvw_"@, i)),
        forall|pip: int| 0 <= pip < p.pips ==> cpu::cropped_input(base, p, i).has_element(#[trigger] p.idnn("queue_to_mv_pip_"@, pip, i)),
        forall|pip: int| 0 <= pip < p.pips ==> cpu::cropped_input(base, p, i).has_element(#[trigger] p.idnn("videocrop_pip_"@, pip, i)),
{
    let s1 = cpu::input_head(base, p, i);
    connected_input_head(base, p, i);
    let s2 = cpu::input_queues(s1, p, i);
    connected_input_queues(s1, p, i);
    let s3 = cpu::input_crops(s2, p, i);
    connected_input_crops(s2, p, i);
    connected_cropped_tile_queues(s3, p, i, p.pips);
}

proof fn connected_cropped_inputs(base: PlanInfo, p: PipelineInfo, n: nat)
    requires
        base.links_hold(),
    ensures
        base.within(cpu::cropped_inputs(base, p, n)),
        cpu::cropped_inputs(base, p, n).links_hold(),
        forall|i: int| 0 <= i < n ==> cpu::cropped_inputs(base, p, n).has_element(#[trigger] p.idn("queue_"@, i)),
        forall|i: int| 0 <= i < n ==> cpu::cropped_inputs(base, p, n).has_element(#[trigger] p.idn("videoconvert_"@, i)),
        forall|i: int| 0 <= i < n && p.format is Some ==> cpu::cropped_inputs(base, p, n).has_element(#[trigger] p.idn("capsfilter_in_"@, i)),
        forall|i: int| 0 <= i < n ==> cpu::cropped_inputs(base, p, n).has_element(#[trigger] p.idn("tee_"@, i)),
        forall|i: int| 0 <= i < n ==> cpu::cropped_inputs(base, p, n).has_element(#[trigger] p.idn("queue_to_dist_"@, i)),
        forall|i: int| 0 <= i < n ==> cpu::cropped_inputs(base, p, n).has_element(#[trigger] p.idn("queue_to_mv_thumb_"@, i)),
        forall|i: int| 0 <= i < n ==> cpu::cropped_inputs(base, p, n).has_element(#[trigger] p.idn("queue_to_mv_pvw_"@, i)),
        forall|i: int| 0 <= i < n ==> cpu::cropped_inputs(base, p, n).has_element(#[trigger] p.idn("videocrop_dist_"@, i)),
        forall|i: int| 0 <= i < n ==> cpu::cropped_inputs(base, p, n).has_element(#[trigger] p.idn("videocrop_pvw_"@, i)),
        forall|pip: int, i: int| 0 <= pip < p.pips && 0 <= i < n ==> cpu::cropped_inputs(base, p, n).has_element(#[trigger] p.idnn("queue_to_mv_pip_"@, pip, i)),
        forall|pip: int, i: int| 0 <= pip < p.pips && 0 <= i < n ==> cpu::cropped_inputs(base, p, n).has_element(#[trigger] p.idnn("videocrop_pip_"@, pip, i)),
    decreases n,
{
    if n > 0 {
        let before = cpu::cropped_inputs(base, p, (n - 1) as nat);
        connected_cropped_inputs(base, p, (n - 1) as nat);
        connected_cropped_input(before, p, n - 1);
    }
}

proof fn connected_dsk_link(base: PlanInfo, p: PipelineInfo, i: int)
    requires
        base.links_hold(),
        base.has_element(p.id("mixer"@)),
        p.format is Some ==> base.has_element(p.idn("capsfilter_dsk_"@, i)),
        base.has_element(p.idn("videoconvert_dsk_"@, i)),
    ensures
        base.within(cpu::dsk_link(base, p, i)),
        cpu::dsk_link(base, p, i).links_hold(),
{
    broadcast use {plan::adding_keeps, plan::linking_keeps};
}

proof fn connected_dsk_links(base: PlanInfo, p: PipelineInfo, n: nat)
    requires
        base.links_hold(),
        base.has_element(p.id("mixer"@)),
        forall|i: int| 0 <= i < n && p.format is Some ==> base.has_element(#[trigger] p.idn("capsfilter_dsk_"@, i)),
        forall|i: int| 0 <= i < n ==> base.has_element(#[trigger] p.idn("videoconvert_dsk_"@, i)),
    ensures
        base.within(cpu::dsk_links(base, p, n)),
        cpu::dsk_links(base, p, n).links_hold(),
    decreases n,
{
    if n > 0 {
        let before = cpu::dsk_links(base, p, (n - 1) as nat);
        connected_dsk_links(base, p, (n - 1) as nat);
        connected_dsk_link(before, p, n - 1);
    }
}

proof fn connected_pgm_overlay_link(base: PlanInfo, p: PipelineInfo)
    requires
        base.links_hold(),
        base.has_element(p.id("mixer"@)),
        p.pips > 0 && p.format is Some ==> base.has_element(p.id("capsfilter_pgm_overlay"@)),
        p.pips > 0 ==> base.has_element(p.id("videoconvert_pgm_overlay"@)),
    ensures
        base.within(cpu::pgm_overlay_link(base, p)),
        cpu::pgm_overlay_link(base, p).links_hold(),
{
    broadcast use {plan::adding_keeps, plan::linking_keeps};
}

proof fn connected_overlay_link(base: PlanInfo, p: PipelineInfo)
    requires
        base.links_hold(),
        base.has_element(p.id("mv_comp"@)),
        p.format is Some ==> base.has_element(p.id("capsfilter_overlay"@)),
        base.has_element(p.id("videoconvert_overlay"@)),
    ensures
        base.within(cpu::overlay_link(base, p)),
        cpu::overlay_link(base, p).links_hold(),
{
    broadcast use {plan::adding_keeps, plan::linking_keeps};
}

proof fn connected_pgm_link(base: PlanInfo, p: PipelineInfo)
    requires
        base.links_hold(),
        base.has_element(p.id("tee_pgm"@)),
        base.has_element(p.id("queue_pgm_mv"@)),
        base.has_element(p.id("capsfilter_pgm_mv"@)),
        base.has_element(p.id("mv_comp"@)),
    ensures
        base.within(cpu::pgm_link(base, p)),
        cpu::pgm_link(base, p).links_hold(),
{
    broadcast use {plan::adding_keeps, plan::linking_keeps};
}

proof fn connected_outputs(base: PlanInfo, p: PipelineInfo)
    requires
        base.links_hold(),
        base.has_element(p.id("mixer"@)),
        base.has_element(p.id("mv_comp"@)),
    ensures
        base.within(cpu::outputs(base, p)),
        cpu::outputs(base, p).links_hold(),
        cpu::outputs(base, p).has_element(p.id("capsfilter_dist"@)),
        cpu::outputs(base, p).has_element(p.id("tee_pgm"@)),
        cpu::outputs(base, p).has_element(p.id("queue_dist_out"@)),
        cpu::outputs(base, p).has_element(p.id("queue_pgm_mv"@)),
        cpu::outputs(base, p).has_element(p.id("capsfilter_pgm_mv"@)),
        forall|i: int| 0 <= i < p.dsks ==> cpu::outputs(base, p).has_element(#[trigger] p.idn("queue_dsk_"@, i)),
        forall|i: int| 0 <= i < p.dsks ==> cpu::outputs(base, p).has_element(#[trigger] p.idn("videoconvert_dsk_"@, i)),
        forall|i: int| 0 <= i < p.dsks && p.format is Some ==> cpu::outputs(base, p).has_element(#[trigger] p.idn("capsfilter_dsk_"@, i)),
        cpu::outputs(base, p).has_element(p.id("capsfilter_mv"@)),
        cpu::outputs(base, p).has_element(p.id("tee_mv"@)),
        cpu::outputs(base, p).has_element(p.id("queue_mv_out"@)),
        cpu::outputs(base, p).has_element(p.id("appsrc_overlay"@)),
        cpu::outputs(base, p).has_element(p.id("queue_overlay"@)),
        cpu::outputs(base, p).has_element(p.id("videoconvert_overlay"@)),
        p.format is Some ==> cpu::outputs(base, p).has_element(p.id("capsfilter_overlay"@)),
{
    let s1 = cpu::dist_output(base, p);
    connected_dist_output(base, p);
    let s2 = cpu::dsks(s1, p, p.dsks);
    connected_dsks(s1, p, p.dsks);
    let s3 = cpu::mv_output(s2, p);
    connected_mv_output(s2, p);
    connected_overlay(s3, p);
}

proof fn connected_connections(base: PlanInfo, p: PipelineInfo)
    requires
        base.links_hold(),
        forall|i: int| 0 <= i < p.inputs ==> base.has_element(#[trigger] p.idn("tee_"@, i)),
        forall|i: int| 0 <= i < p.inputs ==> base.has_element(#[trigger] p.idn("queue_to_dist_"@, i)),
        base.has_element(p.id("mixer"@)),
        forall|i: int| 0 <= i < p.dsks && p.format is Some ==> base.has_element(#[trigger] p.idn("capsfilter_dsk_"@, i)),
        forall|i: int| 0 <= i < p.dsks ==> base.has_element(#[trigger] p.idn("videoconvert_dsk_"@, i)),
        forall|i: int| 0 <= i < p.inputs ==> base.has_element(#[trigger] p.idn("queue_to_mv_thumb_"@, i)),
        base.has_element(p.id("mv_comp"@)),
        forall|i: int| 0 <= i < p.inputs ==> base.has_element(#[trigger] p.idn("queue_to_mv_pvw_"@, i)),
        forall|i: int, pip: int| 0 <= i < p.inputs && 0 <= pip < p.pips ==> base.has_element(#[trigger] p.idnn("queue_to_mv_pip_"@, pip, i)),
        p.format is Some ==> base.has_element(p.id("capsfilter_overlay"@)),
        base.has_element(p.id("videoconvert_overlay"@)),
        base.has_element(p.id("tee_pgm"@)),
        base.has_element(p.id("queue_pgm_mv"@)),
        base.has_element(p.id("capsfilter_pgm_mv"@)),
    ensures
        base.within(cpu::connections(base, p)),
        cpu::connections(base, p).links_hold(),
{
    let s1 = links::dist_links(base, p, p.inputs);
    connected_links::connected_dist_links(base, p, p.inputs);
    let s2 = cpu::dsk_links(s1, p, p.dsks);
    connected_dsk_links(s1, p, p.dsks);
    let s3 = links::thumb_links(s2, p, p.inputs);
    connected_links::connected_thumb_links(s2, p, p.inputs);
    let s4 = links::pvw_links(s3, p, p.inputs);
    connected_links::connected_pvw_links(s3, p, p.inputs);
    let s5 = links::pip_links(s4, p, p.pips);
    connected_links::connected_pip_links(s4, p, p.pips);
    let s6 = cpu::overlay_link(s5, p);
    connected_overlay_link(s5, p);
    connected_pgm_link(s6, p);
}

proof fn connected_cropped_connections(base: PlanInfo, p: PipelineInfo)
    requires
        base.links_hold(),
        forall|i: int| 0 <= i < p.inputs ==> base.has_element(#[trigger] p.idn("tee_"@, i)),
        forall|i: int| 0 <= i < p.inputs ==> base.has_element(#[trigger] p.idn("queue_to_dist_"@, i)),
        forall|i: int| 0 <= i < p.inputs ==> base.has_element(#[trigger] p.idn("videocrop_dist_"@, i)),
        base.has_element(p.id("mixer"@)),
        forall|i: int| 0 <= i < p.dsks && p.format is Some ==> base.has_element(#[trigger] p.idn("capsfilter_dsk_"@, i)),
        forall|i: int| 0 <= i < p.dsks ==> base.has_element(#[trigger] p.idn("videoconvert_dsk_"@, i)),
        p.pips > 0 && p.format is Some ==> base.has_element(p.id("capsfilter_pgm_overlay"@)),
        p.pips > 0 ==> base.has_element(p.id("videoconvert_pgm_overlay"@)),
        forall|i: int| 0 <= i < p.inputs ==> base.has_element(#[trigger] p.idn("queue_to_mv_thumb_"@, i)),
        base.has_element(p.id("mv_comp"@)),
        forall|i: int| 0 <= i < p.inputs ==> base.has_element(#[trigger] p.idn("queue_to_mv_pvw_"@, i)),
        forall|i: int| 0 <= i < p.inputs ==> base.has_element(#[trigger] p.idn("videocrop_pvw_"@, i)),
        forall|i: int, pip: int| 0 <= i < p.inputs && 0 <= pip < p.pips ==> base.has_element(#[trigger] p.idnn("queue_to_mv_pip_"@, pip, i)),
        forall|i: int, pip: int| 0 <= i < p.inputs && 0 <= pip < p.pips ==> base.has_element(#[trigger] p.idnn("videocrop_pip_"@, pip, i)),
        p.format is Some ==> base.has_element(p.id("capsfilter_overlay"@)),
        base.has_element(p.id("videoconvert_overlay"@)),
        base.has_element(p.id("tee_pgm"@)),
        base.has_element(p.id("queue_pgm_mv"@)),
        base.has_element(p.id("capsfilter_pgm_mv"@)),
    ensures
        base.within(cpu::cropped_connections(base, p)),
        cpu::cropped_connections(base, p).links_hold(),
{
    let s1 = links::cropped_dist_links(base, p, p.inputs);
    connected_links::connected_cropped_dist_links(base, p, p.inputs);
    let s2 = cpu::dsk_links(s1, p, p.dsks);
    connected_dsk_links(s1, p, p.dsks);
    let s3 = cpu::pgm_overlay_link(s2, p);
    connected_pgm_overlay_link(s2, p);
    let s4 = links::thumb_links(s3, p, p.inputs);
    connected_links::connected_thumb_links(s3, p, p.inputs);
    let s5 = links::cropped_pvw_links(s4, p, p.inputs);
    connected_links::connected_cropped_pvw_links(s4, p, p.inputs);
    let s6 = links::cropped_pip_links(s5, p, p.pips);
    connected_links::connected_cropped_pip_links(s5, p, p.pips);
    let s7 = cpu::overlay_link(s6, p);
    connected_overlay_link(s6, p);
    connected_pgm_link(s7, p);
}
/// Every connection inside the mixer is between elements of the mixer, and
/// every pad that the block shows is a pad of one of them.
pub proof fn plain_cpu_mixer_is_connected(p: PipelineInfo)
    ensures
        cpu::plain_cpu_plan(p).links_hold(),
        forall|i: int|
            0 <= i < p.inputs ==> cpu::plain_cpu_plan(p).has_element(#[trigger] p.idn("queue_"@, i)),
        forall|i: int|
            0 <= i < p.dsks ==> cpu::plain_cpu_plan(p).has_element(#[trigger] p.idn("queue_dsk_"@, i)),
        forall|i: int|
            0 <= i < p.inputs ==> cpu::plain_cpu_plan(p).has_element(
                #[trigger] p.idn("queue_audio_"@, i),
            ),
        cpu::plain_cpu_plan(p).has_element(p.id("queue_audio_pgm"@)),
        cpu::plain_cpu_plan(p).has_element(p.id("queue_dist_out"@)),
        cpu::plain_cpu_plan(p).has_element(p.id("queue_mv_out"@)),
{
    broadcast use {plan::adding_keeps, plan::linking_keeps};

    let s0 = params::compositors(p);
    assert(plan::empty_plan().links_hold());
    assert(s0.links_hold() && s0.has_element(p.id("mixer"@)) && s0.has_element(p.id("mv_comp"@)));
    let s1 = cpu::outputs(s0, p);
    connected_outputs(s0, p);
    let s2 = cpu::inputs(s1, p, p.inputs);
    connected_inputs(s1, p, p.inputs);
    let s3 = cpu::connections(s2, p);
    connected_connections(s2, p);
    connected_links::connected_audio_meters(s3, p);
}

/// The same holds where pictures can be cropped and have borders.
pub proof fn cpu_mixer_is_connected(p: PipelineInfo)
    ensures
        cpu::cpu_plan(p).links_hold(),
        forall|i: int|
            0 <= i < p.inputs ==> cpu::cpu_plan(p).has_element(#[trigger] p.idn("queue_"@, i)),
        forall|i: int|
            0 <= i < p.dsks ==> cpu::cpu_plan(p).has_element(#[trigger] p.idn("queue_dsk_"@, i)),
        forall|i: int|
            0 <= i < p.inputs ==> cpu::cpu_plan(p).has_element(
                #[trigger] p.idn("queue_audio_"@, i),
            ),
        cpu::cpu_plan(p).has_element(p.id("queue_audio_pgm"@)),
        cpu::cpu_plan(p).has_element(p.id("queue_dist_out"@)),
        cpu::cpu_plan(p).has_element(p.id("queue_mv_out"@)),
{
    broadcast use {plan::adding_keeps, plan::linking_keeps};

    let s0 = params::compositors(p);
    assert(plan::empty_plan().links_hold());
    assert(s0.links_hold() && s0.has_element(p.id("mixer"@)) && s0.has_element(p.id("mv_comp"@)));
    let s1 = cpu::outputs(s0, p);
    connected_outputs(s0, p);
    connected_pgm_overlay(s1, p);
    let s1 = cpu::pgm_overlay(s1, p);
    let s2 = cpu::cropped_inputs(s1, p, p.inputs);
    connected_cropped_inputs(s1, p, p.inputs);
    let s3 = cpu::cropped_connections(s2, p);
    connected_cropped_connections(s2, p);
    connected_links::connected_audio_meters(s3, p);
}

} // verus!
