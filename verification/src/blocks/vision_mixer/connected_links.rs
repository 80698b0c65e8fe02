//! Every connection from the inputs to the compositors is between elements that
//! are there.

use crate::blocks::plan;
use crate::blocks::plan::PlanInfo;
use crate::blocks::vision_mixer::links;
use crate::blocks::vision_mixer::params::PipelineInfo;
use vstd::prelude::*;

verus! {

pub(crate) proof fn connected_dist_link(base: PlanInfo, p: PipelineInfo, i: int)
    requires
        base.links_hold(),
        base.has_element(p.idn("tee_"@, i)),
        base.has_element(p.idn("queue_to_dist_"@, i)),
        base.has_element(p.id("mixer"@)),
    ensures
        base.within(links::dist_link(base, p, i)),
        links::dist_link(base, p, i).links_hold(),
{
    broadcast use {plan::adding_keeps, plan::linking_keeps};
}

pub(crate) proof fn connected_dist_links(base: PlanInfo, p: PipelineInfo, n: nat)
    requires
        base.links_hold(),
        forall|i: int| 0 <= i < n ==> base.has_element(#[trigger] p.idn("tee_"@, i)),
        forall|i: int| 0 <= i < n ==> base.has_element(#[trigger] p.idn("queue_to_dist_"@, i)),
        base.has_element(p.id("mixer"@)),
    ensures
        base.within(links::dist_links(base, p, n)),
        links::dist_links(base, p, n).links_hold(),
    decreases n,
{
    if n > 0 {
        let before = links::dist_links(base, p, (n - 1) as nat);
        connected_dist_links(base, p, (n - 1) as nat);
        connected_dist_link(before, p, n - 1);
    }
}

pub(crate) proof fn connected_thumb_link(base: PlanInfo, p: PipelineInfo, i: int)
    requires
        base.links_hold(),
        base.has_element(p.idn("tee_"@, i)),
        base.has_element(p.idn("queue_to_mv_thumb_"@, i)),
        base.has_element(p.id("mv_comp"@)),
    ensures
        base.within(links::thumb_link(base, p, i)),
        links::thumb_link(base, p, i).links_hold(),
{
    broadcast use {plan::adding_keeps, plan::linking_keeps};
}

pub(crate) proof fn connected_thumb_links(base: PlanInfo, p: PipelineInfo, n: nat)
    requires
        base.links_hold(),
        forall|i: int| 0 <= i < n ==> base.has_element(#[trigger] p.idn("tee_"@, i)),
        forall|i: int| 0 <= i < n ==> base.has_element(#[trigger] p.idn("queue_to_mv_thumb_"@, i)),
        base.has_element(p.id("mv_comp"@)),
    ensures
        base.within(links::thumb_links(base, p, n)),
        links::thumb_links(base, p, n).links_hold(),
    decreases n,
{
    if n > 0 {
        let before = links::thumb_links(base, p, (n - 1) as nat);
        connected_thumb_links(base, p, (n - 1) as nat);
        connected_thumb_link(before, p, n - 1);
    }
}

pub(crate) proof fn connected_pvw_link(base: PlanInfo, p: PipelineInfo, i: int)
    requires
        base.links_hold(),
        base.has_element(p.idn("tee_"@, i)),
        base.has_element(p.idn("queue_to_mv_pvw_"@, i)),
        base.has_element(p.id("mv_comp"@)),
    ensures
        base.within(links::pvw_link(base, p, i)),
        links::pvw_link(base, p, i).links_hold(),
{
    broadcast use {plan::adding_keeps, plan::linking_keeps};
}

pub(crate) proof fn connected_pvw_links(base: PlanInfo, p: PipelineInfo, n: nat)
    requires
        base.links_hold(),
        forall|i: int| 0 <= i < n ==> base.has_element(#[trigger] p.idn("tee_"@, i)),
        forall|i: int| 0 <= i < n ==> base.has_element(#[trigger] p.idn("queue_to_mv_pvw_"@, i)),
        base.has_element(p.id("mv_comp"@)),
    ensures
        base.within(links::pvw_links(base, p, n)),
        links::pvw_links(base, p, n).links_hold(),
    decreases n,
{
    if n > 0 {
        let before = links::pvw_links(base, p, (n - 1) as nat);
        connected_pvw_links(base, p, (n - 1) as nat);
        connected_pvw_link(before, p, n - 1);
    }
}

pub(crate) proof fn connected_pip_link(base: PlanInfo, p: PipelineInfo, pip: int, i: int)
    requires
        base.links_hold(),
        base.has_element(p.idn("tee_"@, i)),
        base.has_element(p.idnn("queue_to_mv_pip_"@, pip, i)),
        base.has_element(p.id("mv_comp"@)),
    ensures
        base.within(links::pip_link(base, p, pip, i)),
        links::pip_link(base, p, pip, i).links_hold(),
{
    broadcast use {plan::adding_keeps, plan::linking_keeps};
}

pub(crate) proof fn connected_pip_row(base: PlanInfo, p: PipelineInfo, pip: int, n: nat)
    requires
        base.links_hold(),
        forall|i: int| 0 <= i < n ==> base.has_element(#[trigger] p.idn("tee_"@, i)),
        forall|i: int| 0 <= i < n ==> base.has_element(#[trigger] p.idnn("queue_to_mv_pip_"@, pip, i)),
        base.has_element(p.id("mv_comp"@)),
    ensures
        base.within(links::pip_row(base, p, pip, n)),
        links::pip_row(base, p, pip, n).links_hold(),
    decreases n,
{
    if n > 0 {
        let before = links::pip_row(base, p, pip, (n - 1) as nat);
        connected_pip_row(base, p, pip, (n - 1) as nat);
        connected_pip_link(before, p, pip, n - 1);
    }
}

pub(crate) proof fn connected_pip_links(base: PlanInfo, p: PipelineInfo, n: nat)
    requires
        base.links_hold(),
        forall|i: int| 0 <= i < p.inputs ==> base.has_element(#[trigger] p.idn("tee_"@, i)),
        forall|i: int, pip: int| 0 <= i < p.inputs && 0 <= pip < n ==> base.has_element(#[trigger] p.idnn("queue_to_mv_pip_"@, pip, i)),
        base.has_element(p.id("mv_comp"@)),
    ensures
        base.within(links::pip_links(base, p, n)),
        links::pip_links(base, p, n).links_hold(),
    decreases n,
{
    if n > 0 {
        let before = links::pip_links(base, p, (n - 1) as nat);
        connected_pip_links(base, p, (n - 1) as nat);
        connected_pip_row(before, p, n - 1, p.inputs);
    }
}

pub(crate) proof fn connected_cropped_dist_link(base: PlanInfo, p: PipelineInfo, i: int)
    requires
        base.links_hold(),
        base.has_element(p.idn("tee_"@, i)),
        base.has_element(p.idn("queue_to_dist_"@, i)),
        base.has_element(p.idn("videocrop_dist_"@, i)),
        base.has_element(p.id("mixer"@)),
    ensures
        base.within(links::cropped_dist_link(base, p, i)),
        links::cropped_dist_link(base, p, i).links_hold(),
{
    broadcast use {plan::adding_keeps, plan::linking_keeps};
}

pub(crate) proof fn connected_cropped_dist_links(base: PlanInfo, p: PipelineInfo, n: nat)
    requires
        base.links_hold(),
        forall|i: int| 0 <= i < n ==> base.has_element(#[trigger] p.idn("tee_"@, i)),
        forall|i: int| 0 <= i < n ==> base.has_element(#[trigger] p.idn("queue_to_dist_"@, i)),
        forall|i: int| 0 <= i < n ==> base.has_element(#[trigger] p.idn("videocrop_dist_"@, i)),
        base.has_element(p.id("mixer"@)),
    ensures
        base.within(links::cropped_dist_links(base, p, n)),
        links::cropped_dist_links(base, p, n).links_hold(),
    decreases n,
{
    if n > 0 {
        let before = links::cropped_dist_links(base, p, (n - 1) as nat);
        connected_cropped_dist_links(base, p, (n - 1) as nat);
        connected_cropped_dist_link(before, p, n - 1);
    }
}

pub(crate) proof fn connected_cropped_pvw_link(base: PlanInfo, p: PipelineInfo, i: int)
    requires
        base.links_hold(),
        base.has_element(p.idn("tee_"@, i)),
        base.has_element(p.idn("queue_to_mv_pvw_"@, i)),
        base.has_element(p.idn("videocrop_pvw_"@, i)),
        base.has_element(p.id("mv_comp"@)),
    ensures
        base.within(links::cropped_pvw_link(base, p, i)),
        links::cropped_pvw_link(base, p, i).links_hold(),
{
    broadcast use {plan::adding_keeps, plan::linking_keeps};
}

pub(crate) proof fn connected_cropped_pvw_links(base: PlanInfo, p: PipelineInfo, n: nat)
    requires
        base.links_hold(),
        forall|i: int| 0 <= i < n ==> base.has_element(#[trigger] p.idn("tee_"@, i)),
        forall|i: int| 0 <= i < n ==> base.has_element(#[trigger] p.idn("queue_to_mv_pvw_"@, i)),
        forall|i: int| 0 <= i < n ==> base.has_element(#[trigger] p.idn("videocrop_pvw_"@, i)),
        base.has_element(p.id("mv_comp"@)),
    ensures
        base.within(links::cropped_pvw_links(base, p, n)),
        links::cropped_pvw_links(base, p, n).links_hold(),
    decreases n,
{
    if n > 0 {
        let before = links::cropped_pvw_links(base, p, (n - 1) as nat);
        connected_cropped_pvw_links(base, p, (n - 1) as nat);
        connected_cropped_pvw_link(before, p, n - 1);
    }
}

pub(crate) proof fn connected_cropped_pip_link(base: PlanInfo, p: PipelineInfo, pip: int, i: int)
    requires
        base.links_hold(),
        base.has_element(p.idn("tee_"@, i)),
        base.has_element(p.idnn("queue_to_mv_pip_"@, pip, i)),
        base.has_element(p.idnn("videocrop_pip_"@, pip, i)),
        base.has_element(p.id("mv_comp"@)),
    ensures
        base.within(links::cropped_pip_link(base, p, pip, i)),
        links::cropped_pip_link(base, p, pip, i).links_hold(),
{
    broadcast use {plan::adding_keeps, plan::linking_keeps};
}

pub(crate) proof fn connected_cropped_pip_row(base: PlanInfo, p: PipelineInfo, pip: int, n: nat)
    requires
        base.links_hold(),
        forall|i: int| 0 <= i < n ==> base.has_element(#[trigger] p.idn("tee_"@, i)),
        forall|i: int| 0 <= i < n ==> base.has_element(#[trigger] p.idnn("queue_to_mv_pip_"@, pip, i)),
        forall|i: int| 0 <= i < n ==> base.has_element(#[trigger] p.idnn("videocrop_pip_"@, pip, i)),
        base.has_element(p.id("mv_comp"@)),
    ensures
        base.within(links::cropped_pip_row(base, p, pip, n)),
        links::cropped_pip_row(base, p, pip, n).links_hold(),
    decreases n,
{
    if n > 0 {
        let before = links::cropped_pip_row(base, p, pip, (n - 1) as nat);
        connected_cropped_pip_row(base, p, pip, (n - 1) as nat);
        connected_cropped_pip_link(before, p, pip, n - 1);
    }
}

pub(crate) proof fn connected_cropped_pip_links(base: PlanInfo, p: PipelineInfo, n: nat)
    requires
        base.links_hold(),
        forall|i: int| 0 <= i < p.inputs ==> base.has_element(#[trigger] p.idn("tee_"@, i)),
        forall|i: int, pip: int| 0 <= i < p.inputs && 0 <= pip < n ==> base.has_element(#[trigger] p.idnn("queue_to_mv_pip_"@, pip, i)),
        forall|i: int, pip: int| 0 <= i < p.inputs && 0 <= pip < n ==> base.has_element(#[trigger] p.idnn("videocrop_pip_"@, pip, i)),
        base.has_element(p.id("mv_comp"@)),
    ensures
        base.within(links::cropped_pip_links(base, p, n)),
        links::cropped_pip_links(base, p, n).links_hold(),
    decreases n,
{
    if n > 0 {
        let before = links::cropped_pip_links(base, p, (n - 1) as nat);
        connected_cropped_pip_links(base, p, (n - 1) as nat);
        connected_cropped_pip_row(before, p, n - 1, p.inputs);
    }
}

pub(crate) proof fn connected_meter(base: PlanInfo, p: PipelineInfo, i: int)
    requires
        base.links_hold(),
    ensures
        base.within(links::meter(base, p, i)),
        links::meter(base, p, i).links_hold(),
        links::meter(base, p, i).has_element(p.idn("queue_audio_"@, i)),
        links::meter(base, p, i).has_element(p.idn("audioconvert_audio_"@, i)),
        links::meter(base, p, i).has_element(p.idn("level_audio_"@, i)),
        links::meter(base, p, i).has_element(p.idn("fakesink_audio_"@, i)),
{
    broadcast use {plan::adding_keeps, plan::linking_keeps};
}

pub(crate) proof fn connected_meters(base: PlanInfo, p: PipelineInfo, n: nat)
    requires
        base.links_hold(),
    ensures
        base.within(links::meters(base, p, n)),
        links::meters(base, p, n).links_hold(),
        forall|i: int| 0 <= i < n ==> links::meters(base, p, n).has_element(#[trigger] p.idn("queue_audio_"@, i)),
        forall|i: int| 0 <= i < n ==> links::meters(base, p, n).has_element(#[trigger] p.idn("audioconvert_audio_"@, i)),
        forall|i: int| 0 <= i < n ==> links::meters(base, p, n).has_element(#[trigger] p.idn("level_audio_"@, i)),
        forall|i: int| 0 <= i < n ==> links::meters(base, p, n).has_element(#[trigger] p.idn("fakesink_audio_"@, i)),
    decreases n,
{
    if n > 0 {
        let before = links::meters(base, p, (n - 1) as nat);
        connected_meters(base, p, (n - 1) as nat);
        connected_meter(before, p, n - 1);
    }
}

pub(crate) proof fn connected_pgm_meter(base: PlanInfo, p: PipelineInfo)
    requires
        base.links_hold(),
    ensures
        base.within(links::pgm_meter(base, p)),
        links::pgm_meter(base, p).links_hold(),
        links::pgm_meter(base, p).has_element(p.id("queue_audio_pgm"@)),
        links::pgm_meter(base, p).has_element(p.id("audioconvert_audio_pgm"@)),
        links::pgm_meter(base, p).has_element(p.id("level_audio_pgm"@)),
        links::pgm_meter(base, p).has_element(p.id("fakesink_audio_pgm"@)),
{
    broadcast use {plan::adding_keeps, plan::linking_keeps};
}

pub(crate) proof fn connected_audio_meters(base: PlanInfo, p: PipelineInfo)
    requires
        base.links_hold(),
    ensures
        base.within(links::audio_meters(base, p)),
        links::audio_meters(base, p).links_hold(),
        forall|i: int| 0 <= i < p.inputs ==> links::audio_meters(base, p).has_element(#[trigger] p.idn("queue_audio_"@, i)),
        forall|i: int| 0 <= i < p.inputs ==> links::audio_meters(base, p).has_element(#[trigger] p.idn("audioconvert_audio_"@, i)),
        forall|i: int| 0 <= i < p.inputs ==> links::audio_meters(base, p).has_element(#[trigger] p.idn("level_audio_"@, i)),
        forall|i: int| 0 <= i < p.inputs ==> links::audio_meters(base, p).has_element(#[trigger] p.idn("fakesink_audio_"@, i)),
        links::audio_meters(base, p).has_element(p.id("queue_audio_pgm"@)),
        links::audio_meters(base, p).has_element(p.id("audioconvert_audio_pgm"@)),
        links::audio_meters(base, p).has_element(p.id("level_audio_pgm"@)),
        links::audio_meters(base, p).has_element(p.id("fakesink_audio_pgm"@)),
{
    let s1 = links::meters(base, p, p.inputs);
    connected_meters(base, p, p.inputs);
    connected_pgm_meter(s1, p);
}

} // verus!
