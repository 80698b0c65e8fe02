//! No two elements of the mixer without a graphics processor have the same id.

use crate::blocks::plan::PlanInfo;
use crate::blocks::vision_mixer::cpu;
use crate::blocks::vision_mixer::links;
use crate::blocks::vision_mixer::names;
use crate::blocks::vision_mixer::names::{Label, Stem};
use crate::blocks::vision_mixer::params;
use crate::blocks::vision_mixer::params::PipelineInfo;
use vstd::prelude::*;

verus! {

proof fn named_dist_output(base: PlanInfo, p: PipelineInfo, labels: Seq<Label>) -> (r: Seq<Label>)
    requires
        names::named(base, p, labels),
        names::before(labels, Stem::QueuePostDist),
    ensures
        names::named(cpu::dist_output(base, p), p, r),
        names::before(r, Stem::QueueDsk),
{
    labels
        .push(names::plain(Stem::CapsfilterDist))
        .push(names::plain(Stem::TeePgm))
        .push(names::plain(Stem::QueueDistOut))
        .push(names::plain(Stem::QueuePgmMv))
        .push(names::plain(Stem::CapsfilterPgmMv))
}

proof fn named_dsk(base: PlanInfo, p: PipelineInfo, labels: Seq<Label>, i: int) -> (r: Seq<Label>)
    requires
        names::named(base, p, labels),
        0 <= i,
        names::counted_to(labels, Stem::QueueDsk, i),
    ensures
        names::named(cpu::dsk(base, p, i), p, r),
        names::counted_to(r, Stem::QueueDsk, i + 1),
{
    if p.format is Some {
        labels
            .push(names::counted(Stem::QueueDsk, i))
            .push(names::counted(Stem::VideoconvertDsk, i))
            .push(names::counted(Stem::CapsfilterDsk, i))
    } else {
        labels
            .push(names::counted(Stem::QueueDsk, i))
            .push(names::counted(Stem::VideoconvertDsk, i))
    }
}

proof fn named_dsks(base: PlanInfo, p: PipelineInfo, labels: Seq<Label>, n: nat) -> (r: Seq<Label>)
    requires
        names::named(base, p, labels),
        names::before(labels, Stem::QueueDsk),
    ensures
        names::named(cpu::dsks(base, p, n), p, r),
        names::counted_to(r, Stem::QueueDsk, n as int),
    decreases n,
{
    if n == 0 {
        labels
    } else {
        let done = named_dsks(base, p, labels, (n - 1) as nat);
        named_dsk(cpu::dsks(base, p, (n - 1) as nat), p, done, n - 1)
    }
}

proof fn named_mv_output(base: PlanInfo, p: PipelineInfo, labels: Seq<Label>) -> (r: Seq<Label>)
    requires
        names::named(base, p, labels),
        names::before(labels, Stem::QueuePostMv),
    ensures
        names::named(cpu::mv_output(base, p), p, r),
        names::before(r, Stem::AppsrcOverlay),
{
    labels
        .push(names::plain(Stem::CapsfilterMv))
        .push(names::plain(Stem::TeeMv))
        .push(names::plain(Stem::QueueMvOut))
}

proof fn named_overlay(base: PlanInfo, p: PipelineInfo, labels: Seq<Label>) -> (r: Seq<Label>)
    requires
        names::named(base, p, labels),
        names::before(labels, Stem::AppsrcOverlay),
    ensures
        names::named(cpu::overlay(base, p), p, r),
        names::before(r, Stem::AppsrcPgmOverlay),
{
    if p.format is Some {
        labels
            .push(names::plain(Stem::AppsrcOverlay))
            .push(names::plain(Stem::QueueOverlay))
            .push(names::plain(Stem::VideoconvertOverlay))
            .push(names::plain(Stem::CapsfilterOverlay))
    } else {
        labels
            .push(names::plain(Stem::AppsrcOverlay))
            .push(names::plain(Stem::QueueOverlay))
            .push(names::plain(Stem::VideoconvertOverlay))
    }
}

proof fn named_pgm_overlay_parts(
    base: PlanInfo,
    p: PipelineInfo,
    labels: Seq<Label>,
) -> (r: Seq<Label>)
    requires
        names::named(base, p, labels),
        names::before(labels, Stem::AppsrcPgmOverlay),
    ensures
        names::named(cpu::pgm_overlay_parts(base, p), p, r),
        names::before(r, Stem::Queue),
{
    if p.format is Some {
        labels
            .push(names::plain(Stem::AppsrcPgmOverlay))
            .push(names::plain(Stem::QueuePgmOverlay))
            .push(names::plain(Stem::VideoconvertPgmOverlay))
            .push(names::plain(Stem::CapsfilterPgmOverlay))
    } else {
        labels
            .push(names::plain(Stem::AppsrcPgmOverlay))
            .push(names::plain(Stem::QueuePgmOverlay))
            .push(names::plain(Stem::VideoconvertPgmOverlay))
    }
}

proof fn named_pgm_overlay(base: PlanInfo, p: PipelineInfo, labels: Seq<Label>) -> (r: Seq<Label>)
    requires
        names::named(base, p, labels),
        names::before(labels, Stem::AppsrcPgmOverlay),
    ensures
        names::named(cpu::pgm_overlay(base, p), p, r),
        names::before(r, Stem::Queue),
{
    if p.pips > 0 {
        named_pgm_overlay_parts(base, p, labels)
    } else {
        labels
    }
}

proof fn named_outputs(base: PlanInfo, p: PipelineInfo, labels: Seq<Label>) -> (r: Seq<Label>)
    requires
        names::named(base, p, labels),
        names::before(labels, Stem::QueuePostDist),
    ensures
        names::named(cpu::outputs(base, p), p, r),
        names::before(r, Stem::AppsrcPgmOverlay),
{
    let s1 = cpu::dist_output(base, p);
    let s2 = cpu::dsks(s1, p, p.dsks);
    let s3 = cpu::mv_output(s2, p);
    let l1 = named_dist_output(base, p, labels);
    let l2 = named_dsks(s1, p, l1, p.dsks);
    let l3 = named_mv_output(s2, p, l2);
    named_overlay(s3, p, l3)
}

proof fn named_input_head(
    base: PlanInfo,
    p: PipelineInfo,
    labels: Seq<Label>,
    i: int,
) -> (r: Seq<Label>)
    requires
        names::named(base, p, labels),
        0 <= i,
        names::counted_to(labels, Stem::Queue, i),
    ensures
        names::named(cpu::input_head(base, p, i), p, r),
        names::counted_to(r, Stem::Queue, i + 1),
        names::counts_only(
            r,
            i,
            seq![Stem::Queue, Stem::Videoconvert, Stem::CapsfilterIn, Stem::Tee],
        ),
{
    if p.format is Some {
        labels
            .push(names::counted(Stem::Queue, i))
            .push(names::counted(Stem::Videoconvert, i))
            .push(names::counted(Stem::CapsfilterIn, i))
            .push(names::counted(Stem::Tee, i))
    } else {
        labels
            .push(names::counted(Stem::Queue, i))
            .push(names::counted(Stem::Videoconvert, i))
            .push(names::counted(Stem::Tee, i))
    }
}

proof fn named_tile_queues(
    base: PlanInfo,
    p: PipelineInfo,
    labels: Seq<Label>,
    i: int,
    n: nat,
) -> (r: Seq<Label>)
    requires
        names::named(base, p, labels),
        0 <= i,
        names::counted_to(labels, Stem::Queue, i + 1),
        names::tiled_to(labels, i, 0),
    ensures
        names::named(cpu::tile_queues(base, p, i, n), p, r),
        names::counted_to(r, Stem::Queue, i + 1),
        names::tiled_to(r, i, n),
    decreases n,
{
    if n == 0 {
        labels
    } else {
        let done = named_tile_queues(base, p, labels, i, (n - 1) as nat);
        done.push(names::tiled(Stem::QueueToMvPip, n - 1, i))
    }
}

proof fn named_cropped_tile_queues(
    base: PlanInfo,
    p: PipelineInfo,
    labels: Seq<Label>,
    i: int,
    n: nat,
) -> (r: Seq<Label>)
    requires
        names::named(base, p, labels),
        0 <= i,
        names::counted_to(labels, Stem::Queue, i + 1),
        names::tiled_to(labels, i, 0),
    ensures
        names::named(cpu::cropped_tile_queues(base, p, i, n), p, r),
        names::counted_to(r, Stem::Queue, i + 1),
        names::tiled_to(r, i, n),
    decreases n,
{
    if n == 0 {
        labels
    } else {
        let done = named_cropped_tile_queues(base, p, labels, i, (n - 1) as nat);
        done
            .push(names::tiled(Stem::QueueToMvPip, n - 1, i))
            .push(names::tiled(Stem::VideocropPip, n - 1, i))
    }
}

proof fn named_input(
    base: PlanInfo,
    p: PipelineInfo,
    labels: Seq<Label>,
    i: int,
) -> (r: Seq<Label>)
    requires
        0 <= i,
        names::named(base, p, labels),
        names::counted_to(labels, Stem::Queue, i),
    ensures
        names::named(cpu::input(base, p, i), p, r),
        names::counted_to(r, Stem::Queue, i + 1),
{
    let s1 = cpu::input_head(base, p, i);
    let s2 = cpu::input_queues(s1, p, i);
    let l1 = named_input_head(base, p, labels, i);
    let l2 = l1
        .push(names::counted(Stem::QueueToDist, i))
        .push(names::counted(Stem::QueueToMvThumb, i))
        .push(names::counted(Stem::QueueToMvPvw, i));
    assert(names::named(s2, p, l2));
    named_tile_queues(s2, p, l2, i, p.pips)
}

proof fn named_cropped_input(
    base: PlanInfo,
    p: PipelineInfo,
    labels: Seq<Label>,
    i: int,
) -> (r: Seq<Label>)
    requires
        0 <= i,
        names::named(base, p, labels),
        names::counted_to(labels, Stem::Queue, i),
    ensures
        names::named(cpu::cropped_input(base, p, i), p, r),
        names::counted_to(r, Stem::Queue, i + 1),
{
    let s1 = cpu::input_head(base, p, i);
    let s2 = cpu::input_queues(s1, p, i);
    let l1 = named_input_head(base, p, labels, i);
    let l2 = l1
        .push(names::counted(Stem::QueueToDist, i))
        .push(names::counted(Stem::QueueToMvThumb, i))
        .push(names::counted(Stem::QueueToMvPvw, i));
    assert(names::named(s2, p, l2));
    let s3 = cpu::input_crops(s2, p, i);
    let l3 = l2
        .push(names::counted(Stem::VideocropDist, i))
        .push(names::counted(Stem::VideocropPvw, i));
    assert(names::named(s3, p, l3));
    named_cropped_tile_queues(s3, p, l3, i, p.pips)
}

proof fn named_inputs(
    base: PlanInfo,
    p: PipelineInfo,
    labels: Seq<Label>,
    n: nat,
) -> (r: Seq<Label>)
    requires
        names::named(base, p, labels),
        names::before(labels, Stem::Queue),
    ensures
        names::named(cpu::inputs(base, p, n), p, r),
        names::counted_to(r, Stem::Queue, n as int),
    decreases n,
{
    if n == 0 {
        labels
    } else {
        let done = named_inputs(base, p, labels, (n - 1) as nat);
        named_input(cpu::inputs(base, p, (n - 1) as nat), p, done, n - 1)
    }
}

proof fn named_cropped_inputs(
    base: PlanInfo,
    p: PipelineInfo,
    labels: Seq<Label>,
    n: nat,
) -> (r: Seq<Label>)
    requires
        names::named(base, p, labels),
        names::before(labels, Stem::Queue),
    ensures
        names::named(cpu::cropped_inputs(base, p, n), p, r),
        names::counted_to(r, Stem::Queue, n as int),
    decreases n,
{
    if n == 0 {
        labels
    } else {
        let done = named_cropped_inputs(base, p, labels, (n - 1) as nat);
        named_cropped_input(cpu::cropped_inputs(base, p, (n - 1) as nat), p, done, n - 1)
    }
}

proof fn lemma_dsk_links_add_nothing(base: PlanInfo, p: PipelineInfo, n: nat)
    ensures
        cpu::dsk_links(base, p, n).elements == base.elements,
    decreases n,
{
    if n > 0 {
        lemma_dsk_links_add_nothing(base, p, (n - 1) as nat);
    }
}

proof fn lemma_connections_add_nothing(base: PlanInfo, p: PipelineInfo)
    ensures
        cpu::connections(base, p).elements == base.elements,
{
    let s1 = links::dist_links(base, p, p.inputs);
    let s2 = cpu::dsk_links(s1, p, p.dsks);
    let s3 = links::thumb_links(s2, p, p.inputs);
    let s4 = links::pvw_links(s3, p, p.inputs);
    names::lemma_dist_links_add_nothing(base, p, p.inputs);
    lemma_dsk_links_add_nothing(s1, p, p.dsks);
    names::lemma_thumb_links_add_nothing(s2, p, p.inputs);
    names::lemma_pvw_links_add_nothing(s3, p, p.inputs);
    names::lemma_pip_links_add_nothing(s4, p, p.pips);
}

proof fn lemma_cropped_connections_add_nothing(base: PlanInfo, p: PipelineInfo)
    ensures
        cpu::cropped_connections(base, p).elements == base.elements,
{
    let s1 = links::cropped_dist_links(base, p, p.inputs);
    let s2 = cpu::dsk_links(s1, p, p.dsks);
    let s3 = cpu::pgm_overlay_link(s2, p);
    let s4 = links::thumb_links(s3, p, p.inputs);
    let s5 = links::cropped_pvw_links(s4, p, p.inputs);
    names::lemma_cropped_dist_links_add_nothing(base, p, p.inputs);
    lemma_dsk_links_add_nothing(s1, p, p.dsks);
    names::lemma_thumb_links_add_nothing(s3, p, p.inputs);
    names::lemma_cropped_pvw_links_add_nothing(s4, p, p.inputs);
    names::lemma_cropped_pip_links_add_nothing(s5, p, p.pips);
}

/// No two elements of the mixer have the same id, where pictures cannot be
/// cropped.
pub proof fn plain_cpu_ids_differ(p: PipelineInfo)
    ensures
        cpu::plain_cpu_plan(p).ids_differ(),
{
    let s0 = params::compositors(p);
    let s1 = cpu::outputs(s0, p);
    let s2 = cpu::inputs(s1, p, p.inputs);
    let s3 = cpu::connections(s2, p);
    let l0 = names::named_compositors(p);
    let l1 = named_outputs(s0, p, l0);
    let l2 = named_inputs(s1, p, l1, p.inputs);
    lemma_connections_add_nothing(s2, p);
    let l3 = names::named_audio_meters(s3, p, l2);
    names::lemma_named_ids_differ(cpu::plain_cpu_plan(p), p, l3);
}

/// The same holds where pictures can be cropped and have borders.
pub proof fn cpu_ids_differ(p: PipelineInfo)
    ensures
        cpu::cpu_plan(p).ids_differ(),
{
    let s0 = params::compositors(p);
    let s1 = cpu::outputs(s0, p);
    let s2 = cpu::pgm_overlay(s1, p);
    let s3 = cpu::cropped_inputs(s2, p, p.inputs);
    let s4 = cpu::cropped_connections(s3, p);
    let l0 = names::named_compositors(p);
    let l1 = named_outputs(s0, p, l0);
    let l2 = named_pgm_overlay(s1, p, l1);
    let l3 = named_cropped_inputs(s2, p, l2, p.inputs);
    lemma_cropped_connections_add_nothing(s3, p);
    let l4 = names::named_audio_meters(s4, p, l3);
    names::lemma_named_ids_differ(cpu::cpu_plan(p), p, l4);
}

} // verus!
