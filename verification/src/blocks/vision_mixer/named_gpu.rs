//! No two elements of the mixer on the graphics processor have the same id.

use crate::blocks::plan::PlanInfo;
use crate::blocks::vision_mixer::gpu;
use crate::blocks::vision_mixer::links;
use crate::blocks::vision_mixer::names;
use crate::blocks::vision_mixer::names::{Label, Stem};
use crate::blocks::vision_mixer::params;
use crate::blocks::vision_mixer::params::PipelineInfo;
use vstd::prelude::*;

verus! {

proof fn named_dist_head(base: PlanInfo, p: PipelineInfo, labels: Seq<Label>) -> (r: Seq<Label>)
    requires
        names::named(base, p, labels),
        names::before(labels, Stem::QueuePostDist),
    ensures
        names::named(gpu::dist_head(base, p), p, r),
        names::before(r, Stem::GldownloadDist),
{
    labels
        .push(names::plain(Stem::QueuePostDist))
        .push(names::plain(Stem::TeePgm))
        .push(names::plain(Stem::QueueDistOut))
}

proof fn named_dist_download(base: PlanInfo, p: PipelineInfo, labels: Seq<Label>) -> (r: Seq<Label>)
    requires
        names::named(base, p, labels),
        names::before(labels, Stem::GldownloadDist),
    ensures
        names::named(gpu::dist_download(base, p), p, r),
        names::before(r, Stem::QueuePgmMv),
{
    labels
        .push(names::plain(Stem::GldownloadDist))
        .push(names::plain(Stem::CapsfilterDist))
}

proof fn named_dist_glmem(base: PlanInfo, p: PipelineInfo, labels: Seq<Label>) -> (r: Seq<Label>)
    requires
        names::named(base, p, labels),
        names::before(labels, Stem::GldownloadDist),
    ensures
        names::named(gpu::dist_glmem(base, p), p, r),
        names::before(r, Stem::QueuePgmMv),
{
    labels
        .push(names::plain(Stem::CapsfilterDist))
}

proof fn named_dist_tail(base: PlanInfo, p: PipelineInfo, labels: Seq<Label>) -> (r: Seq<Label>)
    requires
        names::named(base, p, labels),
        names::before(labels, Stem::GldownloadDist),
    ensures
        names::named(gpu::dist_tail(base, p), p, r),
        names::before(r, Stem::QueuePgmMv),
{
    if p.gl_download {
        named_dist_download(base, p, labels)
    } else {
        named_dist_glmem(base, p, labels)
    }
}

proof fn named_pgm_queue(base: PlanInfo, p: PipelineInfo, labels: Seq<Label>) -> (r: Seq<Label>)
    requires
        names::named(base, p, labels),
        names::before(labels, Stem::QueuePgmMv),
    ensures
        names::named(gpu::pgm_queue(base, p), p, r),
        names::before(r, Stem::QueueDsk),
{
    labels
        .push(names::plain(Stem::QueuePgmMv))
}

proof fn named_dsk(base: PlanInfo, p: PipelineInfo, labels: Seq<Label>, i: int) -> (r: Seq<Label>)
    requires
        names::named(base, p, labels),
        0 <= i,
        names::counted_to(labels, Stem::QueueDsk, i),
    ensures
        names::named(gpu::dsk(base, p, i), p, r),
        names::counted_to(r, Stem::QueueDsk, i + 1),
{
    labels
        .push(names::counted(Stem::QueueDsk, i))
        .push(names::counted(Stem::GluploadDsk, i))
        .push(names::counted(Stem::GlcolorconvertDsk, i))
}

proof fn named_dsks(base: PlanInfo, p: PipelineInfo, labels: Seq<Label>, n: nat) -> (r: Seq<Label>)
    requires
        names::named(base, p, labels),
        names::before(labels, Stem::QueueDsk),
    ensures
        names::named(gpu::dsks(base, p, n), p, r),
        names::counted_to(r, Stem::QueueDsk, n as int),
    decreases n,
{
    if n == 0 {
        labels
    } else {
        let done = named_dsks(base, p, labels, (n - 1) as nat);
        named_dsk(gpu::dsks(base, p, (n - 1) as nat), p, done, n - 1)
    }
}

proof fn named_mv_head(base: PlanInfo, p: PipelineInfo, labels: Seq<Label>) -> (r: Seq<Label>)
    requires
        names::named(base, p, labels),
        names::before(labels, Stem::QueuePostMv),
    ensures
        names::named(gpu::mv_head(base, p), p, r),
        names::before(r, Stem::GldownloadMv),
{
    labels
        .push(names::plain(Stem::QueuePostMv))
        .push(names::plain(Stem::TeeMv))
        .push(names::plain(Stem::QueueMvOut))
}

proof fn named_mv_download(base: PlanInfo, p: PipelineInfo, labels: Seq<Label>) -> (r: Seq<Label>)
    requires
        names::named(base, p, labels),
        names::before(labels, Stem::GldownloadMv),
    ensures
        names::named(gpu::mv_download(base, p), p, r),
        names::before(r, Stem::AppsrcOverlay),
{
    labels
        .push(names::plain(Stem::GldownloadMv))
        .push(names::plain(Stem::CapsfilterMv))
}

proof fn named_mv_glmem(base: PlanInfo, p: PipelineInfo, labels: Seq<Label>) -> (r: Seq<Label>)
    requires
        names::named(base, p, labels),
        names::before(labels, Stem::GldownloadMv),
    ensures
        names::named(gpu::mv_glmem(base, p), p, r),
        names::before(r, Stem::AppsrcOverlay),
{
    labels
        .push(names::plain(Stem::CapsfilterMv))
}

proof fn named_mv_tail(base: PlanInfo, p: PipelineInfo, labels: Seq<Label>) -> (r: Seq<Label>)
    requires
        names::named(base, p, labels),
        names::before(labels, Stem::GldownloadMv),
    ensures
        names::named(gpu::mv_tail(base, p), p, r),
        names::before(r, Stem::AppsrcOverlay),
{
    if p.gl_download {
        named_mv_download(base, p, labels)
    } else {
        named_mv_glmem(base, p, labels)
    }
}

proof fn named_mv_out(base: PlanInfo, p: PipelineInfo, labels: Seq<Label>) -> (r: Seq<Label>)
    requires
        names::named(base, p, labels),
        names::before(labels, Stem::AppsrcOverlay),
    ensures
        names::named(gpu::mv_out(base, p), p, r),
        names::before(r, Stem::AppsrcPgmOverlay),
{
    labels
        .push(names::plain(Stem::AppsrcOverlay))
        .push(names::plain(Stem::QueueOverlay))
        .push(names::plain(Stem::GluploadOverlay))
}

proof fn named_outputs(base: PlanInfo, p: PipelineInfo, labels: Seq<Label>) -> (r: Seq<Label>)
    requires
        names::named(base, p, labels),
        names::before(labels, Stem::QueuePostDist),
    ensures
        names::named(gpu::outputs(base, p), p, r),
        names::before(r, Stem::AppsrcPgmOverlay),
{
    let s1 = gpu::dist_head(base, p);
    let s2 = gpu::dist_tail(s1, p);
    let s3 = gpu::pgm_queue(s2, p);
    let s4 = gpu::dsks(s3, p, p.dsks);
    let s5 = gpu::mv_head(s4, p);
    let s6 = gpu::mv_tail(s5, p);
    let l1 = named_dist_head(base, p, labels);
    let l2 = named_dist_tail(s1, p, l1);
    let l3 = named_pgm_queue(s2, p, l2);
    let l4 = named_dsks(s3, p, l3, p.dsks);
    let l5 = named_mv_head(s4, p, l4);
    let l6 = named_mv_tail(s5, p, l5);
    named_mv_out(s6, p, l6)
}

proof fn named_input_head(
    base: PlanInfo,
    p: PipelineInfo,
    labels: Seq<Label>,
    i: int,
) -> (r: Seq<Label>)
    requires
        names::named(base, p, labels),
        0 <= i,
        names::counted_to(labels, Stem::Queue, i),
    ensures
        names::named(gpu::input_head(base, p, i), p, r),
        names::counted_to(r, Stem::Queue, i + 1),
        names::tiled_to(r, i, 0),
{
    labels
        .push(names::counted(Stem::Queue, i))
        .push(names::counted(Stem::Glupload, i))
        .push(names::counted(Stem::Glcolorconvert, i))
        .push(names::counted(Stem::Tee, i))
        .push(names::counted(Stem::QueueToDist, i))
        .push(names::counted(Stem::QueueToMvThumb, i))
        .push(names::counted(Stem::QueueToMvPvw, i))
}

proof fn named_tile_queues(
    base: PlanInfo,
    p: PipelineInfo,
    labels: Seq<Label>,
    i: int,
    n: nat,
) -> (r: Seq<Label>)
    requires
        names::named(base, p, labels),
        0 <= i,
        names::counted_to(labels, Stem::Queue, i + 1),
        names::tiled_to(labels, i, 0),
    ensures
        names::named(gpu::tile_queues(base, p, i, n), p, r),
        names::counted_to(r, Stem::Queue, i + 1),
        names::tiled_to(r, i, n),
    decreases n,
{
    if n == 0 {
        labels
    } else {
        let done = named_tile_queues(base, p, labels, i, (n - 1) as nat);
        done.push(names::tiled(Stem::QueueToMvPip, n - 1, i))
    }
}

proof fn named_input(base: PlanInfo, p: PipelineInfo, labels: Seq<Label>, i: int) -> (r: Seq<Label>)
    requires
        0 <= i,
        names::named(base, p, labels),
        names::counted_to(labels, Stem::Queue, i),
    ensures
        names::named(gpu::input(base, p, i), p, r),
        names::counted_to(r, Stem::Queue, i + 1),
{
    let s1 = gpu::input_head(base, p, i);
    let l1 = named_input_head(base, p, labels, i);
    named_tile_queues(s1, p, l1, i, p.pips)
}

proof fn named_inputs(
    base: PlanInfo,
    p: PipelineInfo,
    labels: Seq<Label>,
    n: nat,
) -> (r: Seq<Label>)
    requires
        names::named(base, p, labels),
        names::before(labels, Stem::Queue),
    ensures
        names::named(gpu::inputs(base, p, n), p, r),
        names::counted_to(r, Stem::Queue, n as int),
    decreases n,
{
    if n == 0 {
        labels
    } else {
        let done = named_inputs(base, p, labels, (n - 1) as nat);
        named_input(gpu::inputs(base, p, (n - 1) as nat), p, done, n - 1)
    }
}

proof fn lemma_dsk_links_add_nothing(base: PlanInfo, p: PipelineInfo, n: nat)
    ensures
        gpu::dsk_links(base, p, n).elements == base.elements,
    decreases n,
{
    if n > 0 {
        lemma_dsk_links_add_nothing(base, p, (n - 1) as nat);
    }
}

proof fn lemma_connections_add_nothing(base: PlanInfo, p: PipelineInfo)
    ensures
        gpu::connections(base, p).elements == base.elements,
{
    let s1 = links::dist_links(base, p, p.inputs);
    let s2 = gpu::dsk_links(s1, p, p.dsks);
    let s3 = links::thumb_links(s2, p, p.inputs);
    let s4 = gpu::pgm_link(s3, p);
    let s5 = links::pvw_links(s4, p, p.inputs);
    names::lemma_dist_links_add_nothing(base, p, p.inputs);
    lemma_dsk_links_add_nothing(s1, p, p.dsks);
    names::lemma_thumb_links_add_nothing(s2, p, p.inputs);
    names::lemma_pvw_links_add_nothing(s4, p, p.inputs);
    names::lemma_pip_links_add_nothing(s5, p, p.pips);
}

/// No two elements of the mixer have the same id.
pub proof fn gpu_ids_differ(p: PipelineInfo)
    ensures
        gpu::gpu_plan(p).ids_differ(),
{
    let s0 = params::compositors(p);
    let s1 = gpu::outputs(s0, p);
    let s2 = gpu::inputs(s1, p, p.inputs);
    let s3 = gpu::connections(s2, p);
    let l0 = names::named_compositors(p);
    let l1 = named_outputs(s0, p, l0);
    let l2 = named_inputs(s1, p, l1, p.inputs);
    lemma_connections_add_nothing(s2, p);
    let l3 = names::named_audio_meters(s3, p, l2);
    names::lemma_named_ids_differ(gpu::gpu_plan(p), p, l3);
}

} // verus!
