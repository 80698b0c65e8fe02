//! How pictures run through the mixer: laws on which pad of which compositor every
//! input, key and overlay reaches, and on what leaves the mixer.

use crate::blocks::contents;
use crate::blocks::plan::{PlanInfo, SettingInfo};
use crate::blocks::vision_mixer::cpu;
use crate::blocks::vision_mixer::gpu;
use crate::blocks::vision_mixer::links;
use crate::blocks::vision_mixer::params;
use crate::blocks::vision_mixer::params::{CompositorBackend, PipelineInfo};
use crate::text;
use vstd::prelude::*;

verus! {

/// An element of the mixer.
pub open spec fn part(p: PipelineInfo, name: Seq<char>) -> Seq<char> {
    p.instance + ":"@ + name
}

/// An element of the mixer that belongs to an input or a key.
pub open spec fn part_of(p: PipelineInfo, name: Seq<char>, i: int) -> Seq<char> {
    p.instance + ":"@ + (name + text::decimal(i as nat))
}

/// An element of the mixer that belongs to a tile and an input.
pub open spec fn part_of_tile(p: PipelineInfo, name: Seq<char>, pip: int, i: int) -> Seq<char> {
    p.instance + ":"@ + (name + text::decimal(pip as nat) + "_"@ + text::decimal(i as nat))
}

/// A pad of a compositor.
pub open spec fn sink(k: int) -> Seq<char> {
    "sink_"@ + text::decimal(k as nat)
}

/// A pad of the element that splits an input.
pub open spec fn branch(k: int) -> Seq<char> {
    "src_"@ + text::decimal(k as nat)
}

/// What leaves one element enters the next.
pub open spec fn flows(all: PlanInfo, from: Seq<char>, to: Seq<char>) -> bool {
    contents::joins(all, from, "src"@, to, "sink"@)
}

proof fn lemma_branches()
    ensures
        "src_0"@ == branch(0),
        "src_1"@ == branch(1),
        "src_2"@ == branch(2),
{
    reveal_strlit("src_0");
    reveal_strlit("src_1");
    reveal_strlit("src_2");
    reveal_strlit("src_");
    reveal_with_fuel(text::decimal, 3);
    assert("src_0"@ =~= branch(0));
    assert("src_1"@ =~= branch(1));
    assert("src_2"@ =~= branch(2));
}

proof fn lemma_tile_part(p: PipelineInfo, name: Seq<char>, pip: int, i: int)
    ensures
        p.idnn(name, pip, i) == part_of_tile(p, name, pip, i),
{
}

/// An input reaches the pad of its own number on the programme compositor.
pub open spec fn on_programme(all: PlanInfo, p: PipelineInfo, i: int) -> bool {
    &&& contents::joins(all, part_of(p, "tee_"@, i), branch(0), part_of(p, "queue_to_dist_"@, i), "sink"@)
    &&& contents::joins(all, part_of(p, "queue_to_dist_"@, i), "src"@, part(p, "mixer"@), sink(i))
}

/// An input reaches the pad of its own number on the programme compositor, through
/// a crop.
pub open spec fn on_programme_cropped(all: PlanInfo, p: PipelineInfo, i: int) -> bool {
    &&& contents::joins(all, part_of(p, "tee_"@, i), branch(0), part_of(p, "queue_to_dist_"@, i), "sink"@)
    &&& flows(all, part_of(p, "queue_to_dist_"@, i), part_of(p, "videocrop_dist_"@, i))
    &&& contents::joins(all, part_of(p, "videocrop_dist_"@, i), "src"@, part(p, "mixer"@), sink(i))
}

/// An input reaches its thumbnail: the pad of its own number on the multiview
/// compositor.
pub open spec fn on_thumbnail(all: PlanInfo, p: PipelineInfo, i: int) -> bool {
    &&& contents::joins(all, part_of(p, "tee_"@, i), branch(1), part_of(p, "queue_to_mv_thumb_"@, i), "sink"@)
    &&& contents::joins(all, part_of(p, "queue_to_mv_thumb_"@, i), "src"@, part(p, "mv_comp"@), sink(i))
}

/// An input reaches its pad for preview, behind the thumbnails and programme.
pub open spec fn on_preview(all: PlanInfo, p: PipelineInfo, i: int) -> bool {
    &&& contents::joins(all, part_of(p, "tee_"@, i), branch(2), part_of(p, "queue_to_mv_pvw_"@, i), "sink"@)
    &&& contents::joins(all, part_of(p, "queue_to_mv_pvw_"@, i), "src"@, part(p, "mv_comp"@), sink(p.inputs + 1 + i))
}

/// An input reaches its pad for preview, through a crop.
pub open spec fn on_preview_cropped(all: PlanInfo, p: PipelineInfo, i: int) -> bool {
    &&& contents::joins(all, part_of(p, "tee_"@, i), branch(2), part_of(p, "queue_to_mv_pvw_"@, i), "sink"@)
    &&& flows(all, part_of(p, "queue_to_mv_pvw_"@, i), part_of(p, "videocrop_pvw_"@, i))
    &&& contents::joins(all, part_of(p, "videocrop_pvw_"@, i), "src"@, part(p, "mv_comp"@), sink(p.inputs + 1 + i))
}

/// An input reaches its pad in a tile, behind those for preview and for the tiles
/// before.
pub open spec fn in_tile(all: PlanInfo, p: PipelineInfo, pip: int, i: int) -> bool {
    &&& contents::joins(all, part_of(p, "tee_"@, i), branch(3 + pip), part_of_tile(p, "queue_to_mv_pip_"@, pip, i), "sink"@)
    &&& contents::joins(all, part_of_tile(p, "queue_to_mv_pip_"@, pip, i), "src"@, part(p, "mv_comp"@), sink(2 * p.inputs + 1 + pip * p.inputs + i))
}

/// An input reaches its pad in a tile, through a crop.
pub open spec fn in_tile_cropped(all: PlanInfo, p: PipelineInfo, pip: int, i: int) -> bool {
    &&& contents::joins(all, part_of(p, "tee_"@, i), branch(3 + pip), part_of_tile(p, "queue_to_mv_pip_"@, pip, i), "sink"@)
    &&& flows(all, part_of_tile(p, "queue_to_mv_pip_"@, pip, i), part_of_tile(p, "videocrop_pip_"@, pip, i))
    &&& contents::joins(all, part_of_tile(p, "videocrop_pip_"@, pip, i), "src"@, part(p, "mv_comp"@), sink(2 * p.inputs + 1 + pip * p.inputs + i))
}

/// The sound of an input is measured and goes nowhere else.
pub open spec fn is_measured(all: PlanInfo, p: PipelineInfo, i: int) -> bool {
    &&& contents::makes(all, part_of(p, "queue_audio_"@, i), "queue"@)
    &&& contents::makes(all, part_of(p, "audioconvert_audio_"@, i), "audioconvert"@)
    &&& contents::makes(all, part_of(p, "level_audio_"@, i), "level"@)
    &&& contents::makes(all, part_of(p, "fakesink_audio_"@, i), "fakesink"@)
    &&& flows(all, part_of(p, "queue_audio_"@, i), part_of(p, "audioconvert_audio_"@, i))
    &&& flows(all, part_of(p, "audioconvert_audio_"@, i), part_of(p, "level_audio_"@, i))
    &&& flows(all, part_of(p, "level_audio_"@, i), part_of(p, "fakesink_audio_"@, i))
}

/// The sound of programme is measured.
pub open spec fn programme_is_measured(all: PlanInfo, p: PipelineInfo) -> bool {
    &&& contents::makes(all, part(p, "queue_audio_pgm"@), "queue"@)
    &&& contents::makes(all, part(p, "audioconvert_audio_pgm"@), "audioconvert"@)
    &&& contents::makes(all, part(p, "level_audio_pgm"@), "level"@)
    &&& contents::makes(all, part(p, "fakesink_audio_pgm"@), "fakesink"@)
    &&& flows(all, part(p, "queue_audio_pgm"@), part(p, "audioconvert_audio_pgm"@))
    &&& flows(all, part(p, "audioconvert_audio_pgm"@), part(p, "level_audio_pgm"@))
    &&& flows(all, part(p, "level_audio_pgm"@), part(p, "fakesink_audio_pgm"@))
}

proof fn lemma_dist(base: PlanInfo, p: PipelineInfo, n: nat)
    ensures
        contents::held_too(base, links::dist_links(base, p, n)),
        forall|i: int| 0 <= i < n ==> #[trigger] on_programme(links::dist_links(base, p, n), p, i),
    decreases n,
{
    broadcast use contents::what_plans_hold;

    if n > 0 {
        let m = (n - 1) as nat;
        let before = links::dist_links(base, p, m);
        let all = links::dist_links(base, p, n);
        lemma_dist(base, p, m);
        lemma_branches();
        assert(contents::held_too(before, all));
        contents::lemma_held_on(base, before, all);
        assert forall|i: int| 0 <= i < n implies #[trigger] on_programme(all, p, i) by {
            if i < m {
                assert(on_programme(before, p, i));
            }
        }
    }
}

proof fn lemma_cropped_dist(base: PlanInfo, p: PipelineInfo, n: nat)
    ensures
        contents::held_too(base, links::cropped_dist_links(base, p, n)),
        forall|i: int| 0 <= i < n ==> #[trigger] on_programme_cropped(links::cropped_dist_links(base, p, n), p, i),
    decreases n,
{
    broadcast use contents::what_plans_hold;

    if n > 0 {
        let m = (n - 1) as nat;
        let before = links::cropped_dist_links(base, p, m);
        let all = links::cropped_dist_links(base, p, n);
        lemma_cropped_dist(base, p, m);
        lemma_branches();
        assert(contents::held_too(before, all));
        contents::lemma_held_on(base, before, all);
        assert forall|i: int| 0 <= i < n implies #[trigger] on_programme_cropped(all, p, i) by {
            if i < m {
                assert(on_programme_cropped(before, p, i));
            }
        }
    }
}

proof fn lemma_thumb(base: PlanInfo, p: PipelineInfo, n: nat)
    ensures
        contents::held_too(base, links::thumb_links(base, p, n)),
        forall|i: int| 0 <= i < n ==> #[trigger] on_thumbnail(links::thumb_links(base, p, n), p, i),
    decreases n,
{
    broadcast use contents::what_plans_hold;

    if n > 0 {
        let m = (n - 1) as nat;
        let before = links::thumb_links(base, p, m);
        let all = links::thumb_links(base, p, n);
        lemma_thumb(base, p, m);
        lemma_branches();
        assert(contents::held_too(before, all));
        contents::lemma_held_on(base, before, all);
        assert forall|i: int| 0 <= i < n implies #[trigger] on_thumbnail(all, p, i) by {
            if i < m {
                assert(on_thumbnail(before, p, i));
            }
        }
    }
}

proof fn lemma_pvw(base: PlanInfo, p: PipelineInfo, n: nat)
    ensures
        contents::held_too(base, links::pvw_links(base, p, n)),
        forall|i: int| 0 <= i < n ==> #[trigger] on_preview(links::pvw_links(base, p, n), p, i),
    decreases n,
{
    broadcast use contents::what_plans_hold;

    if n > 0 {
        let m = (n - 1) as nat;
        let before = links::pvw_links(base, p, m);
        let all = links::pvw_links(base, p, n);
        lemma_pvw(base, p, m);
        lemma_branches();
        assert(contents::held_too(before, all));
        contents::lemma_held_on(base, before, all);
        assert forall|i: int| 0 <= i < n implies #[trigger] on_preview(all, p, i) by {
            if i < m {
                assert(on_preview(before, p, i));
            }
        }
    }
}

proof fn lemma_cropped_pvw(base: PlanInfo, p: PipelineInfo, n: nat)
    ensures
        contents::held_too(base, links::cropped_pvw_links(base, p, n)),
        forall|i: int| 0 <= i < n ==> #[trigger] on_preview_cropped(links::cropped_pvw_links(base, p, n), p, i),
    decreases n,
{
    broadcast use contents::what_plans_hold;

    if n > 0 {
        let m = (n - 1) as nat;
        let before = links::cropped_pvw_links(base, p, m);
        let all = links::cropped_pvw_links(base, p, n);
        lemma_cropped_pvw(base, p, m);
        lemma_branches();
        assert(contents::held_too(before, all));
        contents::lemma_held_on(base, before, all);
        assert forall|i: int| 0 <= i < n implies #[trigger] on_preview_cropped(all, p, i) by {
            if i < m {
                assert(on_preview_cropped(before, p, i));
            }
        }
    }
}

proof fn lemma_meters(base: PlanInfo, p: PipelineInfo, n: nat)
    ensures
        contents::held_too(base, links::meters(base, p, n)),
        forall|i: int| 0 <= i < n ==> #[trigger] is_measured(links::meters(base, p, n), p, i),
    decreases n,
{
    broadcast use contents::what_plans_hold;

    if n > 0 {
        let m = (n - 1) as nat;
        let before = links::meters(base, p, m);
        let all = links::meters(base, p, n);
        lemma_meters(base, p, m);
        lemma_branches();
        assert(contents::held_too(before, all));
        contents::lemma_held_on(base, before, all);
        assert forall|i: int| 0 <= i < n implies #[trigger] is_measured(all, p, i) by {
            if i < m {
                assert(is_measured(before, p, i));
            }
        }
    }
}

proof fn lemma_tiles_row(base: PlanInfo, p: PipelineInfo, pip: int, n: nat)
    ensures
        contents::held_too(base, links::pip_row(base, p, pip, n)),
        forall|i: int| 0 <= i < n ==> #[trigger] in_tile(links::pip_row(base, p, pip, n), p, pip, i),
    decreases n,
{
    broadcast use contents::what_plans_hold;

    if n > 0 {
        let m = (n - 1) as nat;
        let before = links::pip_row(base, p, pip, m);
        let all = links::pip_row(base, p, pip, n);
        lemma_tiles_row(base, p, pip, m);
        lemma_tile_part(p, "queue_to_mv_pip_"@, pip, m as int);
        assert(contents::held_too(before, all));
        contents::lemma_held_on(base, before, all);
        assert forall|i: int| 0 <= i < n implies #[trigger] in_tile(all, p, pip, i) by {
            if i < m {
                assert(in_tile(before, p, pip, i));
            }
        }
    }
}

proof fn lemma_tiles(base: PlanInfo, p: PipelineInfo, n: nat)
    ensures
        contents::held_too(base, links::pip_links(base, p, n)),
        forall|pip: int, i: int|
            0 <= pip < n && 0 <= i < p.inputs ==> #[trigger] in_tile(links::pip_links(base, p, n), p, pip, i),
    decreases n,
{
    if n > 0 {
        let m = (n - 1) as nat;
        let before = links::pip_links(base, p, m);
        let all = links::pip_links(base, p, n);
        lemma_tiles(base, p, m);
        lemma_tiles_row(before, p, m as int, p.inputs);
        contents::lemma_held_on(base, before, all);
        assert forall|pip: int, i: int|
            0 <= pip < n && 0 <= i < p.inputs implies #[trigger] in_tile(all, p, pip, i) by {
            if pip < m {
                assert(in_tile(before, p, pip, i));
            }
        }
    }
}

proof fn lemma_cropped_tiles_row(base: PlanInfo, p: PipelineInfo, pip: int, n: nat)
    ensures
        contents::held_too(base, links::cropped_pip_row(base, p, pip, n)),
        forall|i: int| 0 <= i < n ==> #[trigger] in_tile_cropped(links::cropped_pip_row(base, p, pip, n), p, pip, i),
    decreases n,
{
    broadcast use contents::what_plans_hold;

    if n > 0 {
        let m = (n - 1) as nat;
        let before = links::cropped_pip_row(base, p, pip, m);
        let all = links::cropped_pip_row(base, p, pip, n);
        lemma_cropped_tiles_row(base, p, pip, m);
        lemma_tile_part(p, "queue_to_mv_pip_"@, pip, m as int);
        lemma_tile_part(p, "videocrop_pip_"@, pip, m as int);
        assert(contents::held_too(before, all));
        contents::lemma_held_on(base, before, all);
        assert forall|i: int| 0 <= i < n implies #[trigger] in_tile_cropped(all, p, pip, i) by {
            if i < m {
                assert(in_tile_cropped(before, p, pip, i));
            }
        }
    }
}

proof fn lemma_cropped_tiles(base: PlanInfo, p: PipelineInfo, n: nat)
    ensures
        contents::held_too(base, links::cropped_pip_links(base, p, n)),
        forall|pip: int, i: int|
            0 <= pip < n && 0 <= i < p.inputs ==> #[trigger] in_tile_cropped(links::cropped_pip_links(base, p, n), p, pip, i),
    decreases n,
{
    if n > 0 {
        let m = (n - 1) as nat;
        let before = links::cropped_pip_links(base, p, m);
        let all = links::cropped_pip_links(base, p, n);
        lemma_cropped_tiles(base, p, m);
        lemma_cropped_tiles_row(before, p, m as int, p.inputs);
        contents::lemma_held_on(base, before, all);
        assert forall|pip: int, i: int|
            0 <= pip < n && 0 <= i < p.inputs implies #[trigger] in_tile_cropped(all, p, pip, i) by {
            if pip < m {
                assert(in_tile_cropped(before, p, pip, i));
            }
        }
    }
}

/// An input that is mixed in memory is converted, and brought into the format that
/// is asked for, before it is split.
pub open spec fn enters_in_memory(all: PlanInfo, p: PipelineInfo, i: int) -> bool {
    &&& contents::makes(all, part_of(p, "queue_"@, i), "queue"@)
    &&& contents::makes(all, part_of(p, "videoconvert_"@, i), p.convert)
    &&& contents::makes(all, part_of(p, "tee_"@, i), "tee"@)
    &&& flows(all, part_of(p, "queue_"@, i), part_of(p, "videoconvert_"@, i))
    &&& p.format is None ==> flows(all, part_of(p, "videoconvert_"@, i), part_of(p, "tee_"@, i))
    &&& p.format is Some ==> (flows(all, part_of(p, "videoconvert_"@, i), part_of(p, "capsfilter_in_"@, i)) && flows(all, part_of(p, "capsfilter_in_"@, i), part_of(p, "tee_"@, i)) && contents::makes(all, part_of(p, "capsfilter_in_"@, i), "capsfilter"@) && contents::sets(all, part_of(p, "capsfilter_in_"@, i), "caps"@, SettingInfo::Caps(params::format_caps(p.format->0))))
    &&& contents::makes(all, part_of(p, "queue_to_dist_"@, i), "queue"@)
    &&& contents::makes(all, part_of(p, "queue_to_mv_thumb_"@, i), "queue"@)
    &&& contents::makes(all, part_of(p, "queue_to_mv_pvw_"@, i), "queue"@)
}

/// The crops of an input.
pub open spec fn can_be_cropped(all: PlanInfo, p: PipelineInfo, i: int) -> bool {
    &&& contents::makes(all, part_of(p, "videocrop_dist_"@, i), "videocrop"@)
    &&& contents::makes(all, part_of(p, "videocrop_pvw_"@, i), "videocrop"@)
}

/// A key that is mixed in memory is converted, and brought into the format that is
/// asked for.
pub open spec fn key_enters_in_memory(all: PlanInfo, p: PipelineInfo, i: int) -> bool {
    &&& contents::makes(all, part_of(p, "queue_dsk_"@, i), "queue"@)
    &&& contents::makes(all, part_of(p, "videoconvert_dsk_"@, i), p.convert)
    &&& flows(all, part_of(p, "queue_dsk_"@, i), part_of(p, "videoconvert_dsk_"@, i))
    &&& p.format is Some ==> (flows(all, part_of(p, "videoconvert_dsk_"@, i), part_of(p, "capsfilter_dsk_"@, i)) && contents::makes(all, part_of(p, "capsfilter_dsk_"@, i), "capsfilter"@) && contents::sets(all, part_of(p, "capsfilter_dsk_"@, i), "caps"@, SettingInfo::Caps(params::format_caps(p.format->0))))
}

/// A key reaches its pad on the programme compositor, behind those of the inputs.
pub open spec fn key_on_programme(all: PlanInfo, p: PipelineInfo, i: int) -> bool {
    contents::joins(
        all,
        if p.format is Some {
            part_of(p, "capsfilter_dsk_"@, i)
        } else {
            part_of(p, "videoconvert_dsk_"@, i)
        },
        "src"@,
        part(p, "mixer"@),
        sink(p.inputs + i),
    )
}

proof fn lemma_cpu_keys(base: PlanInfo, p: PipelineInfo, n: nat)
    ensures
        contents::held_too(base, cpu::dsks(base, p, n)),
        forall|i: int| 0 <= i < n ==> #[trigger] key_enters_in_memory(cpu::dsks(base, p, n), p, i),
    decreases n,
{
    broadcast use contents::what_plans_hold;

    if n > 0 {
        let m = (n - 1) as nat;
        let before = cpu::dsks(base, p, m);
        let all = cpu::dsks(base, p, n);
        lemma_cpu_keys(base, p, m);
        lemma_branches();
        assert(contents::held_too(before, all));
        contents::lemma_held_on(base, before, all);
        assert forall|i: int| 0 <= i < n implies #[trigger] key_enters_in_memory(all, p, i) by {
            if i < m {
                assert(key_enters_in_memory(before, p, i));
            }
        }
    }
}

proof fn lemma_cpu_key_links(base: PlanInfo, p: PipelineInfo, n: nat)
    ensures
        contents::held_too(base, cpu::dsk_links(base, p, n)),
        forall|i: int| 0 <= i < n ==> #[trigger] key_on_programme(cpu::dsk_links(base, p, n), p, i),
    decreases n,
{
    broadcast use contents::what_plans_hold;

    if n > 0 {
        let m = (n - 1) as nat;
        let before = cpu::dsk_links(base, p, m);
        let all = cpu::dsk_links(base, p, n);
        lemma_cpu_key_links(base, p, m);
        lemma_branches();
        assert(contents::held_too(before, all));
        contents::lemma_held_on(base, before, all);
        assert forall|i: int| 0 <= i < n implies #[trigger] key_on_programme(all, p, i) by {
            if i < m {
                assert(key_on_programme(before, p, i));
            }
        }
    }
}

proof fn lemma_cpu_tile_queues(base: PlanInfo, p: PipelineInfo, i: int, n: nat)
    ensures
        contents::held_too(base, cpu::tile_queues(base, p, i, n)),
        forall|pip: int|
            0 <= pip < n ==> contents::makes(
                cpu::tile_queues(base, p, i, n),
                #[trigger] part_of_tile(p, "queue_to_mv_pip_"@, pip, i),
                "queue"@,
            ),
    decreases n,
{
    broadcast use contents::what_plans_hold;

    if n > 0 {
        let m = (n - 1) as nat;
        let before = cpu::tile_queues(base, p, i, m);
        let all = cpu::tile_queues(base, p, i, n);
        lemma_cpu_tile_queues(base, p, i, m);
        lemma_tile_part(p, "queue_to_mv_pip_"@, m as int, i);
        assert(contents::held_too(before, all));
        contents::lemma_held_on(base, before, all);
        assert forall|pip: int| 0 <= pip < n implies contents::makes(
            all,
            #[trigger] part_of_tile(p, "queue_to_mv_pip_"@, pip, i),
            "queue"@,
        ) by {
            if pip < m {
                assert(contents::makes(
                    before,
                    part_of_tile(p, "queue_to_mv_pip_"@, pip, i),
                    "queue"@,
                ));
            }
        }
    }
}

proof fn lemma_cpu_cropped_tile_queues(base: PlanInfo, p: PipelineInfo, i: int, n: nat)
    ensures
        contents::held_too(base, cpu::cropped_tile_queues(base, p, i, n)),
        forall|pip: int|
            0 <= pip < n ==> contents::makes(
                cpu::cropped_tile_queues(base, p, i, n),
                #[trigger] part_of_tile(p, "queue_to_mv_pip_"@, pip, i),
                "queue"@,
            ),
    decreases n,
{
    broadcast use contents::what_plans_hold;

    if n > 0 {
        let m = (n - 1) as nat;
        let before = cpu::cropped_tile_queues(base, p, i, m);
        let all = cpu::cropped_tile_queues(base, p, i, n);
        lemma_cpu_cropped_tile_queues(base, p, i, m);
        lemma_tile_part(p, "queue_to_mv_pip_"@, m as int, i);
        assert(contents::held_too(before, all));
        contents::lemma_held_on(base, before, all);
        assert forall|pip: int| 0 <= pip < n implies contents::makes(
            all,
            #[trigger] part_of_tile(p, "queue_to_mv_pip_"@, pip, i),
            "queue"@,
        ) by {
            if pip < m {
                assert(contents::makes(
                    before,
                    part_of_tile(p, "queue_to_mv_pip_"@, pip, i),
                    "queue"@,
                ));
            }
        }
    }
}

proof fn lemma_gpu_tile_queues(base: PlanInfo, p: PipelineInfo, i: int, n: nat)
    ensures
        contents::held_too(base, gpu::tile_queues(base, p, i, n)),
        forall|pip: int|
            0 <= pip < n ==> contents::makes(
                gpu::tile_queues(base, p, i, n),
                #[trigger] part_of_tile(p, "queue_to_mv_pip_"@, pip, i),
                "queue"@,
            ),
    decreases n,
{
    broadcast use contents::what_plans_hold;

    if n > 0 {
        let m = (n - 1) as nat;
        let before = gpu::tile_queues(base, p, i, m);
        let all = gpu::tile_queues(base, p, i, n);
        lemma_gpu_tile_queues(base, p, i, m);
        lemma_tile_part(p, "queue_to_mv_pip_"@, m as int, i);
        assert(contents::held_too(before, all));
        contents::lemma_held_on(base, before, all);
        assert forall|pip: int| 0 <= pip < n implies contents::makes(
            all,
            #[trigger] part_of_tile(p, "queue_to_mv_pip_"@, pip, i),
            "queue"@,
        ) by {
            if pip < m {
                assert(contents::makes(
                    before,
                    part_of_tile(p, "queue_to_mv_pip_"@, pip, i),
                    "queue"@,
                ));
            }
        }
    }
}

proof fn lemma_cpu_inputs(base: PlanInfo, p: PipelineInfo, n: nat)
    ensures
        contents::held_too(base, cpu::inputs(base, p, n)),
        forall|i: int| 0 <= i < n ==> #[trigger] enters_in_memory(cpu::inputs(base, p, n), p, i),
    decreases n,
{
    broadcast use contents::what_plans_hold;

    if n > 0 {
        let m = (n - 1) as nat;
        let before = cpu::inputs(base, p, m);
        let all = cpu::inputs(base, p, n);
        lemma_cpu_inputs(base, p, m);
        lemma_branches();
        let head = cpu::input_head(before, p, m as int);
        let queues = cpu::input_queues(head, p, m as int);
        assert(contents::held_too(before, head));
        assert(contents::held_too(head, queues));
        assert(enters_in_memory(queues, p, m as int));
        lemma_cpu_tile_queues(queues, p, m as int, p.pips);
        contents::lemma_held_on(before, head, queues);
        contents::lemma_held_on(before, queues, all);
        assert(contents::held_too(before, all));
        contents::lemma_held_on(base, before, all);
        assert forall|i: int| 0 <= i < n implies #[trigger] enters_in_memory(all, p, i) by {
            if i < m {
                assert(enters_in_memory(before, p, i));
            }
        }
    }
}

/// An input that is mixed in memory and can be cropped.
pub open spec fn enters_and_can_be_cropped(all: PlanInfo, p: PipelineInfo, i: int) -> bool {
    enters_in_memory(all, p, i) && can_be_cropped(all, p, i)
}

proof fn lemma_cpu_cropped_inputs(base: PlanInfo, p: PipelineInfo, n: nat)
    ensures
        contents::held_too(base, cpu::cropped_inputs(base, p, n)),
        forall|i: int| 0 <= i < n ==> #[trigger] enters_and_can_be_cropped(cpu::cropped_inputs(base, p, n), p, i),
    decreases n,
{
    broadcast use contents::what_plans_hold;

    if n > 0 {
        let m = (n - 1) as nat;
        let before = cpu::cropped_inputs(base, p, m);
        let all = cpu::cropped_inputs(base, p, n);
        lemma_cpu_cropped_inputs(base, p, m);
        lemma_branches();
        let head = cpu::input_head(before, p, m as int);
        let queues = cpu::input_queues(head, p, m as int);
        let crops = cpu::input_crops(queues, p, m as int);
        assert(contents::held_too(before, head));
        assert(contents::held_too(head, queues));
        assert(contents::held_too(queues, crops));
        assert(enters_in_memory(queues, p, m as int));
        assert(can_be_cropped(crops, p, m as int));
        lemma_cpu_cropped_tile_queues(crops, p, m as int, p.pips);
        contents::lemma_held_on(before, head, queues);
        contents::lemma_held_on(before, queues, crops);
        contents::lemma_held_on(before, crops, all);
        assert(contents::held_too(before, all));
        contents::lemma_held_on(base, before, all);
        assert forall|i: int| 0 <= i < n implies #[trigger] enters_and_can_be_cropped(all, p, i) by {
            if i < m {
                assert(enters_and_can_be_cropped(before, p, i));
            }
        }
    }
}

/// An input that is mixed by the graphics card is brought there before it is split.
pub open spec fn enters_on_the_card(all: PlanInfo, p: PipelineInfo, i: int) -> bool {
    &&& contents::makes(all, part_of(p, "queue_"@, i), "queue"@)
    &&& contents::makes(all, part_of(p, "glupload_"@, i), "glupload"@)
    &&& contents::makes(all, part_of(p, "glcolorconvert_"@, i), "glcolorconvert"@)
    &&& contents::makes(all, part_of(p, "tee_"@, i), "tee"@)
    &&& contents::makes(all, part_of(p, "queue_to_dist_"@, i), "queue"@)
    &&& contents::makes(all, part_of(p, "queue_to_mv_thumb_"@, i), "queue"@)
    &&& contents::makes(all, part_of(p, "queue_to_mv_pvw_"@, i), "queue"@)
    &&& flows(all, part_of(p, "queue_"@, i), part_of(p, "glupload_"@, i))
    &&& flows(all, part_of(p, "glupload_"@, i), part_of(p, "glcolorconvert_"@, i))
    &&& flows(all, part_of(p, "glcolorconvert_"@, i), part_of(p, "tee_"@, i))
}

proof fn lemma_gpu_inputs(base: PlanInfo, p: PipelineInfo, n: nat)
    ensures
        contents::held_too(base, gpu::inputs(base, p, n)),
        forall|i: int| 0 <= i < n ==> #[trigger] enters_on_the_card(gpu::inputs(base, p, n), p, i),
    decreases n,
{
    broadcast use contents::what_plans_hold;

    if n > 0 {
        let m = (n - 1) as nat;
        let before = gpu::inputs(base, p, m);
        let all = gpu::inputs(base, p, n);
        lemma_gpu_inputs(base, p, m);
        lemma_branches();
        let head = gpu::input_head(before, p, m as int);
        let queues = gpu::tile_queues(head, p, m as int, p.pips);
        assert(contents::held_too(before, head));
        lemma_gpu_tile_queues(head, p, m as int, p.pips);
        assert(contents::held_too(queues, all));
        contents::lemma_held_on(before, head, queues);
        contents::lemma_held_on(before, queues, all);
        assert(contents::held_too(before, all));
        contents::lemma_held_on(base, before, all);
        assert forall|i: int| 0 <= i < n implies #[trigger] enters_on_the_card(all, p, i) by {
            if i < m {
                assert(enters_on_the_card(before, p, i));
            }
        }
    }
}

/// A key that is mixed by the graphics card is brought there.
pub open spec fn key_enters_on_the_card(all: PlanInfo, p: PipelineInfo, i: int) -> bool {
    &&& contents::makes(all, part_of(p, "queue_dsk_"@, i), "queue"@)
    &&& contents::makes(all, part_of(p, "glupload_dsk_"@, i), "glupload"@)
    &&& contents::makes(all, part_of(p, "glcolorconvert_dsk_"@, i), "glcolorconvert"@)
    &&& flows(all, part_of(p, "queue_dsk_"@, i), part_of(p, "glupload_dsk_"@, i))
    &&& flows(all, part_of(p, "glupload_dsk_"@, i), part_of(p, "glcolorconvert_dsk_"@, i))
}

/// A key on the graphics card reaches its pad on the programme compositor, behind
/// those of the inputs.
pub open spec fn card_key_on_programme(all: PlanInfo, p: PipelineInfo, i: int) -> bool {
    contents::joins(all, part_of(p, "glcolorconvert_dsk_"@, i), "src"@, part(p, "mixer"@), sink(p.inputs + i))
}

proof fn lemma_gpu_keys(base: PlanInfo, p: PipelineInfo, n: nat)
    ensures
        contents::held_too(base, gpu::dsks(base, p, n)),
        forall|i: int| 0 <= i < n ==> #[trigger] key_enters_on_the_card(gpu::dsks(base, p, n), p, i),
    decreases n,
{
    broadcast use contents::what_plans_hold;

    if n > 0 {
        let m = (n - 1) as nat;
        let before = gpu::dsks(base, p, m);
        let all = gpu::dsks(base, p, n);
        lemma_gpu_keys(base, p, m);
        lemma_branches();
        assert(contents::held_too(before, all));
        contents::lemma_held_on(base, before, all);
        assert forall|i: int| 0 <= i < n implies #[trigger] key_enters_on_the_card(all, p, i) by {
            if i < m {
                assert(key_enters_on_the_card(before, p, i));
            }
        }
    }
}

proof fn lemma_gpu_key_links(base: PlanInfo, p: PipelineInfo, n: nat)
    ensures
        contents::held_too(base, gpu::dsk_links(base, p, n)),
        forall|i: int| 0 <= i < n ==> #[trigger] card_key_on_programme(gpu::dsk_links(base, p, n), p, i),
    decreases n,
{
    broadcast use contents::what_plans_hold;

    if n > 0 {
        let m = (n - 1) as nat;
        let before = gpu::dsk_links(base, p, m);
        let all = gpu::dsk_links(base, p, n);
        lemma_gpu_key_links(base, p, m);
        lemma_branches();
        assert(contents::held_too(before, all));
        contents::lemma_held_on(base, before, all);
        assert forall|i: int| 0 <= i < n implies #[trigger] card_key_on_programme(all, p, i) by {
            if i < m {
                assert(card_key_on_programme(before, p, i));
            }
        }
    }
}

/// Frames that the mixer draws itself come in at an element: the newest few, stamped
/// as they come.
pub open spec fn is_drawn(all: PlanInfo, id: Seq<char>) -> bool {
    &&& contents::makes(all, id, "appsrc"@)
    &&& contents::sets(all, id, "format"@, SettingInfo::Parsed("time"@))
    &&& contents::sets(all, id, "is-live"@, SettingInfo::Bool(false))
    &&& contents::sets(all, id, "automatic-eos"@, SettingInfo::Bool(false))
    &&& contents::sets(all, id, "do-timestamp"@, SettingInfo::Bool(true))
    &&& contents::sets(all, id, "max-buffers"@, SettingInfo::U64(2))
    &&& contents::sets(all, id, "leaky-type"@, SettingInfo::Parsed("upstream"@))
}

/// Both compositors are there, with the latencies that are set.
pub open spec fn has_compositors(all: PlanInfo, p: PipelineInfo) -> bool {
    &&& contents::makes(
        all,
        part(p, "mixer"@),
        if p.backend == CompositorBackend::OpenGL {
            "glvideomixerelement"@
        } else {
            "compositor"@
        },
    )
    &&& contents::sets(all, part(p, "mixer"@), "latency"@, SettingInfo::U64(p.latency_ms))
    &&& contents::sets(all, part(p, "mixer"@), "min-upstream-latency"@, SettingInfo::U64(p.min_upstream_ms))
    &&& contents::makes(
        all,
        part(p, "mv_comp"@),
        if p.backend == CompositorBackend::OpenGL {
            "glvideomixerelement"@
        } else {
            "compositor"@
        },
    )
    &&& contents::sets(all, part(p, "mv_comp"@), "latency"@, SettingInfo::U64(p.latency_ms))
    &&& contents::sets(all, part(p, "mv_comp"@), "min-upstream-latency"@, SettingInfo::U64(p.min_upstream_ms))
}

/// What is mixed in memory leaves the mixer as it is asked for: programme in its size
/// and rate, split off for the multiview as well, and the multiview in its own.
pub open spec fn leaves_memory(all: PlanInfo, p: PipelineInfo) -> bool {
    &&& contents::makes(all, part(p, "capsfilter_dist"@), "capsfilter"@)
    &&& contents::sets(all, part(p, "capsfilter_dist"@), "caps"@, SettingInfo::Caps(p.pgm_caps()))
    &&& contents::makes(all, part(p, "tee_pgm"@), "tee"@)
    &&& contents::makes(all, part(p, "queue_dist_out"@), "queue"@)
    &&& flows(all, part(p, "mixer"@), part(p, "capsfilter_dist"@))
    &&& flows(all, part(p, "capsfilter_dist"@), part(p, "tee_pgm"@))
    &&& contents::joins(all, part(p, "tee_pgm"@), branch(0), part(p, "queue_dist_out"@), "sink"@)
    &&& contents::makes(all, part(p, "queue_pgm_mv"@), "queue"@)
    &&& contents::sets(all, part(p, "queue_pgm_mv"@), "leaky"@, SettingInfo::Parsed("upstream"@))
    &&& contents::sets(all, part(p, "queue_pgm_mv"@), "max-size-buffers"@, SettingInfo::U32(1))
    &&& contents::makes(all, part(p, "capsfilter_pgm_mv"@), "capsfilter"@)
    &&& contents::sets(all, part(p, "capsfilter_pgm_mv"@), "caps"@, SettingInfo::Caps(p.pgm_caps()))
    &&& contents::makes(all, part(p, "capsfilter_mv"@), "capsfilter"@)
    &&& contents::sets(all, part(p, "capsfilter_mv"@), "caps"@, SettingInfo::Caps(p.mv_caps()))
    &&& contents::makes(all, part(p, "tee_mv"@), "tee"@)
    &&& contents::makes(all, part(p, "queue_mv_out"@), "queue"@)
    &&& flows(all, part(p, "mv_comp"@), part(p, "capsfilter_mv"@))
    &&& flows(all, part(p, "capsfilter_mv"@), part(p, "tee_mv"@))
    &&& contents::joins(all, part(p, "tee_mv"@), branch(0), part(p, "queue_mv_out"@), "sink"@)
}

/// What is drawn over the multiview in memory is converted on its way.
pub open spec fn is_drawn_over_multiview(all: PlanInfo, p: PipelineInfo) -> bool {
    &&& is_drawn(all, part(p, "appsrc_overlay"@))
    &&& contents::makes(all, part(p, "queue_overlay"@), "queue"@)
    &&& contents::makes(all, part(p, "videoconvert_overlay"@), p.convert)
    &&& flows(all, part(p, "appsrc_overlay"@), part(p, "queue_overlay"@))
    &&& flows(all, part(p, "queue_overlay"@), part(p, "videoconvert_overlay"@))
    &&& p.format is Some ==> (flows(all, part(p, "videoconvert_overlay"@), part(p, "capsfilter_overlay"@)) && contents::makes(all, part(p, "capsfilter_overlay"@), "capsfilter"@) && contents::sets(all, part(p, "capsfilter_overlay"@), "caps"@, SettingInfo::Caps(params::format_caps(p.format->0))))
}

/// What is drawn over programme in memory is converted on its way.
pub open spec fn is_drawn_over_programme(all: PlanInfo, p: PipelineInfo) -> bool {
    &&& is_drawn(all, part(p, "appsrc_pgm_overlay"@))
    &&& contents::makes(all, part(p, "queue_pgm_overlay"@), "queue"@)
    &&& contents::makes(all, part(p, "videoconvert_pgm_overlay"@), p.convert)
    &&& flows(all, part(p, "appsrc_pgm_overlay"@), part(p, "queue_pgm_overlay"@))
    &&& flows(all, part(p, "queue_pgm_overlay"@), part(p, "videoconvert_pgm_overlay"@))
    &&& p.format is Some ==> (flows(all, part(p, "videoconvert_pgm_overlay"@), part(p, "capsfilter_pgm_overlay"@)) && contents::makes(all, part(p, "capsfilter_pgm_overlay"@), "capsfilter"@) && contents::sets(all, part(p, "capsfilter_pgm_overlay"@), "caps"@, SettingInfo::Caps(params::format_caps(p.format->0))))
}

/// What is drawn over the multiview in memory reaches the pad behind all others, and
/// programme the one behind the thumbnails.
pub open spec fn multiview_is_complete(all: PlanInfo, p: PipelineInfo) -> bool {
    &&& contents::joins(
        all,
        if p.format is Some {
            part(p, "capsfilter_overlay"@)
        } else {
            part(p, "videoconvert_overlay"@)
        },
        "src"@,
        part(p, "mv_comp"@),
        sink((2 * p.inputs + 1 + p.pips * p.inputs) as int),
    )
    &&& contents::joins(all, part(p, "tee_pgm"@), branch(1), part(p, "queue_pgm_mv"@), "sink"@)
    &&& flows(all, part(p, "queue_pgm_mv"@), part(p, "capsfilter_pgm_mv"@))
    &&& contents::joins(all, part(p, "capsfilter_pgm_mv"@), "src"@, part(p, "mv_comp"@), sink(p.inputs as int))
}

proof fn lemma_compositors(p: PipelineInfo)
    ensures
        has_compositors(params::compositors(p), p),
{
    broadcast use contents::what_plans_hold;

}

proof fn lemma_cpu_outputs(base: PlanInfo, p: PipelineInfo)
    ensures
        ({
            let all = cpu::outputs(base, p);
            &&& contents::held_too(base, all)
            &&& leaves_memory(all, p)
            &&& is_drawn_over_multiview(all, p)
            &&& forall|i: int| 0 <= i < p.dsks ==> #[trigger] key_enters_in_memory(all, p, i)
        }),
{
    broadcast use contents::what_plans_hold;

    lemma_branches();
    let s1 = cpu::dist_output(base, p);
    let s2 = cpu::dsks(s1, p, p.dsks);
    let s3 = cpu::mv_output(s2, p);
    let s4 = cpu::overlay(s3, p);
    assert(contents::held_too(base, s1));
    lemma_cpu_keys(s1, p, p.dsks);
    assert(contents::held_too(s2, s3));
    assert(contents::held_too(s3, s4));
    contents::lemma_held_on(base, s1, s2);
    contents::lemma_held_on(s1, s2, s3);
    contents::lemma_held_on(s1, s3, s4);
    contents::lemma_held_on(s2, s3, s4);
    contents::lemma_held_on(base, s2, s4);
    assert forall|i: int| 0 <= i < p.dsks implies #[trigger] key_enters_in_memory(s4, p, i) by {
        assert(key_enters_in_memory(s2, p, i));
    }
}

proof fn lemma_cpu_connections(base: PlanInfo, p: PipelineInfo)
    ensures
        ({
            let all = cpu::connections(base, p);
            &&& contents::held_too(base, all)
            &&& forall|i: int| 0 <= i < p.inputs ==> #[trigger] on_programme(all, p, i)
            &&& forall|i: int| 0 <= i < p.dsks ==> #[trigger] key_on_programme(all, p, i)
            &&& forall|i: int| 0 <= i < p.inputs ==> #[trigger] on_thumbnail(all, p, i)
            &&& forall|i: int| 0 <= i < p.inputs ==> #[trigger] on_preview(all, p, i)
            &&& forall|pip: int, i: int|
                0 <= pip < p.pips && 0 <= i < p.inputs ==> #[trigger] in_tile(all, p, pip, i)
            &&& multiview_is_complete(all, p)
        }),
{
    broadcast use contents::what_plans_hold;

    lemma_branches();
    let s0 = base;
    let s1 = links::dist_links(s0, p, p.inputs);
    lemma_dist(s0, p, p.inputs);
    let s2 = cpu::dsk_links(s1, p, p.dsks);
    lemma_cpu_key_links(s1, p, p.dsks);
    let s3 = links::thumb_links(s2, p, p.inputs);
    lemma_thumb(s2, p, p.inputs);
    let s4 = links::pvw_links(s3, p, p.inputs);
    lemma_pvw(s3, p, p.inputs);
    let s5 = links::pip_links(s4, p, p.pips);
    lemma_tiles(s4, p, p.pips);
    let s6 = cpu::overlay_link(s5, p);
    assert(contents::held_too(s5, s6));
    let s7 = cpu::pgm_link(s6, p);
    assert(contents::held_too(s6, s7));
    contents::lemma_held_on(s5, s6, s7);
    contents::lemma_held_on(s4, s5, s7);
    contents::lemma_held_on(s3, s4, s7);
    contents::lemma_held_on(s2, s3, s7);
    contents::lemma_held_on(s1, s2, s7);
    contents::lemma_held_on(s0, s1, s7);
    assert forall|i: int| 0 <= i < p.inputs implies #[trigger] on_programme(s7, p, i) by {
        assert(on_programme(s1, p, i));
    }
    assert forall|i: int| 0 <= i < p.dsks implies #[trigger] key_on_programme(s7, p, i) by {
        assert(key_on_programme(s2, p, i));
    }
    assert forall|i: int| 0 <= i < p.inputs implies #[trigger] on_thumbnail(s7, p, i) by {
        assert(on_thumbnail(s3, p, i));
    }
    assert forall|i: int| 0 <= i < p.inputs implies #[trigger] on_preview(s7, p, i) by {
        assert(on_preview(s4, p, i));
    }
    assert forall|pip: int, i: int| 0 <= pip < p.pips && 0 <= i < p.inputs implies #[trigger] in_tile(
        s7,
        p,
        pip,
        i,
    ) by {
        assert(in_tile(s5, p, pip, i));
    }
}

proof fn lemma_cropped_connections(base: PlanInfo, p: PipelineInfo)
    ensures
        ({
            let all = cpu::cropped_connections(base, p);
            &&& contents::held_too(base, all)
            &&& forall|i: int| 0 <= i < p.inputs ==> #[trigger] on_programme_cropped(all, p, i)
            &&& forall|i: int| 0 <= i < p.dsks ==> #[trigger] key_on_programme(all, p, i)
            &&& forall|i: int| 0 <= i < p.inputs ==> #[trigger] on_thumbnail(all, p, i)
            &&& forall|i: int| 0 <= i < p.inputs ==> #[trigger] on_preview_cropped(all, p, i)
            &&& forall|pip: int, i: int|
                0 <= pip < p.pips && 0 <= i < p.inputs ==> #[trigger] in_tile_cropped(all, p, pip, i)
            &&& multiview_is_complete(all, p)
            &&& p.pips > 0 ==> contents::joins(
                all,
                if p.format is Some {
                    part(p, "capsfilter_pgm_overlay"@)
                } else {
                    part(p, "videoconvert_pgm_overlay"@)
                },
                "src"@,
                part(p, "mixer"@),
                sink((p.inputs + p.dsks) as int),
            )
        }),
{
    broadcast use contents::what_plans_hold;

    lemma_branches();
    let s0 = base;
    let s1 = links::cropped_dist_links(s0, p, p.inputs);
    lemma_cropped_dist(s0, p, p.inputs);
    let s2 = cpu::dsk_links(s1, p, p.dsks);
    lemma_cpu_key_links(s1, p, p.dsks);
    let s3 = cpu::pgm_overlay_link(s2, p);
    assert(contents::held_too(s2, s3));
    let s4 = links::thumb_links(s3, p, p.inputs);
    lemma_thumb(s3, p, p.inputs);
    let s5 = links::cropped_pvw_links(s4, p, p.inputs);
    lemma_cropped_pvw(s4, p, p.inputs);
    let s6 = links::cropped_pip_links(s5, p, p.pips);
    lemma_cropped_tiles(s5, p, p.pips);
    let s7 = cpu::overlay_link(s6, p);
    assert(contents::held_too(s6, s7));
    let s8 = cpu::pgm_link(s7, p);
    assert(contents::held_too(s7, s8));
    contents::lemma_held_on(s6, s7, s8);
    contents::lemma_held_on(s5, s6, s8);
    contents::lemma_held_on(s4, s5, s8);
    contents::lemma_held_on(s3, s4, s8);
    contents::lemma_held_on(s2, s3, s8);
    contents::lemma_held_on(s1, s2, s8);
    contents::lemma_held_on(s0, s1, s8);
    assert forall|i: int| 0 <= i < p.inputs implies #[trigger] on_programme_cropped(s8, p, i) by {
        assert(on_programme_cropped(s1, p, i));
    }
    assert forall|i: int| 0 <= i < p.dsks implies #[trigger] key_on_programme(s8, p, i) by {
        assert(key_on_programme(s2, p, i));
    }
    assert forall|i: int| 0 <= i < p.inputs implies #[trigger] on_thumbnail(s8, p, i) by {
        assert(on_thumbnail(s4, p, i));
    }
    assert forall|i: int| 0 <= i < p.inputs implies #[trigger] on_preview_cropped(s8, p, i) by {
        assert(on_preview_cropped(s5, p, i));
    }
    assert forall|pip: int, i: int| 0 <= pip < p.pips && 0 <= i < p.inputs implies #[trigger] in_tile_cropped(
        s8,
        p,
        pip,
        i,
    ) by {
        assert(in_tile_cropped(s6, p, pip, i));
    }
}

/// What is mixed by the graphics card leaves the mixer as it is asked for: taken out
/// of graphics memory in its size, rate and format, or left there in its size and
/// rate.
pub open spec fn leaves_the_card(all: PlanInfo, p: PipelineInfo) -> bool {
    &&& contents::makes(all, part(p, "queue_post_dist"@), "queue"@)
    &&& contents::makes(all, part(p, "tee_pgm"@), "tee"@)
    &&& contents::makes(all, part(p, "queue_dist_out"@), "queue"@)
    &&& flows(all, part(p, "mixer"@), part(p, "queue_post_dist"@))
    &&& flows(all, part(p, "queue_post_dist"@), part(p, "tee_pgm"@))
    &&& contents::makes(all, part(p, "capsfilter_dist"@), "capsfilter"@)
    &&& flows(all, part(p, "capsfilter_dist"@), part(p, "queue_dist_out"@))
    &&& p.gl_download ==> (contents::makes(all, part(p, "gldownload_dist"@), "gldownload"@) && contents::joins(all, part(p, "tee_pgm"@), branch(0), part(p, "gldownload_dist"@), "sink"@) && flows(all, part(p, "gldownload_dist"@), part(p, "capsfilter_dist"@)) && contents::sets(all, part(p, "capsfilter_dist"@), "caps"@, SettingInfo::Caps(p.pgm_caps())))
    &&& !p.gl_download ==> (contents::joins(all, part(p, "tee_pgm"@), branch(0), part(p, "capsfilter_dist"@), "sink"@) && contents::sets(all, part(p, "capsfilter_dist"@), "caps"@, SettingInfo::CapsText(p.pgm_caps_glmem())))
    &&& contents::makes(all, part(p, "queue_pgm_mv"@), "queue"@)
    &&& contents::makes(all, part(p, "queue_post_mv"@), "queue"@)
    &&& contents::makes(all, part(p, "tee_mv"@), "tee"@)
    &&& contents::makes(all, part(p, "queue_mv_out"@), "queue"@)
    &&& flows(all, part(p, "mv_comp"@), part(p, "queue_post_mv"@))
    &&& contents::makes(all, part(p, "capsfilter_mv"@), "capsfilter"@)
    &&& flows(all, part(p, "capsfilter_mv"@), part(p, "tee_mv"@))
    &&& contents::joins(all, part(p, "tee_mv"@), branch(0), part(p, "queue_mv_out"@), "sink"@)
    &&& p.gl_download ==> (contents::makes(all, part(p, "gldownload_mv"@), "gldownload"@) && flows(all, part(p, "queue_post_mv"@), part(p, "gldownload_mv"@)) && flows(all, part(p, "gldownload_mv"@), part(p, "capsfilter_mv"@)) && contents::sets(all, part(p, "capsfilter_mv"@), "caps"@, SettingInfo::Caps(p.mv_caps())))
    &&& !p.gl_download ==> (flows(all, part(p, "queue_post_mv"@), part(p, "capsfilter_mv"@)) && contents::sets(all, part(p, "capsfilter_mv"@), "caps"@, SettingInfo::CapsText(p.mv_caps_glmem())))
    &&& is_drawn(all, part(p, "appsrc_overlay"@))
    &&& contents::makes(all, part(p, "queue_overlay"@), "queue"@)
    &&& contents::makes(all, part(p, "glupload_overlay"@), "glupload"@)
    &&& flows(all, part(p, "appsrc_overlay"@), part(p, "queue_overlay"@))
    &&& flows(all, part(p, "queue_overlay"@), part(p, "glupload_overlay"@))
}

proof fn lemma_gpu_outputs(base: PlanInfo, p: PipelineInfo)
    ensures
        ({
            let all = gpu::outputs(base, p);
            &&& contents::held_too(base, all)
            &&& leaves_the_card(all, p)
            &&& forall|i: int| 0 <= i < p.dsks ==> #[trigger] key_enters_on_the_card(all, p, i)
        }),
{
    broadcast use contents::what_plans_hold;

    lemma_branches();
    let s1 = gpu::dist_head(base, p);
    let s2 = gpu::dist_tail(s1, p);
    let s3 = gpu::pgm_queue(s2, p);
    let s4 = gpu::dsks(s3, p, p.dsks);
    let s5 = gpu::mv_head(s4, p);
    let s6 = gpu::mv_tail(s5, p);
    let s7 = gpu::mv_out(s6, p);
    assert(contents::held_too(base, s1));
    assert(contents::held_too(s1, s2));
    assert(contents::held_too(s2, s3));
    lemma_gpu_keys(s3, p, p.dsks);
    assert(contents::held_too(s4, s5));
    assert(contents::held_too(s5, s6));
    assert(contents::held_too(s6, s7));
    contents::lemma_held_on(s5, s6, s7);
    contents::lemma_held_on(s4, s5, s7);
    contents::lemma_held_on(s3, s4, s7);
    contents::lemma_held_on(s2, s3, s7);
    contents::lemma_held_on(s1, s2, s7);
    contents::lemma_held_on(base, s1, s7);
    assert forall|i: int| 0 <= i < p.dsks implies #[trigger] key_enters_on_the_card(s7, p, i) by {
        assert(key_enters_on_the_card(s4, p, i));
    }
}

proof fn lemma_gpu_connections(base: PlanInfo, p: PipelineInfo)
    ensures
        ({
            let all = gpu::connections(base, p);
            &&& contents::held_too(base, all)
            &&& forall|i: int| 0 <= i < p.inputs ==> #[trigger] on_programme(all, p, i)
            &&& forall|i: int| 0 <= i < p.dsks ==> #[trigger] card_key_on_programme(all, p, i)
            &&& forall|i: int| 0 <= i < p.inputs ==> #[trigger] on_thumbnail(all, p, i)
            &&& forall|i: int| 0 <= i < p.inputs ==> #[trigger] on_preview(all, p, i)
            &&& forall|pip: int, i: int|
                0 <= pip < p.pips && 0 <= i < p.inputs ==> #[trigger] in_tile(all, p, pip, i)
            &&& contents::joins(all, part(p, "tee_pgm"@), branch(1), part(p, "queue_pgm_mv"@), "sink"@)
            &&& contents::joins(all, part(p, "queue_pgm_mv"@), "src"@, part(p, "mv_comp"@), sink(p.inputs as int))
            &&& contents::joins(all, part(p, "glupload_overlay"@), "src"@, part(p, "mv_comp"@), sink((2 * p.inputs + 1 + p.pips * p.inputs) as int))
        }),
{
    broadcast use contents::what_plans_hold;

    lemma_branches();
    let s0 = base;
    let s1 = links::dist_links(s0, p, p.inputs);
    lemma_dist(s0, p, p.inputs);
    let s2 = gpu::dsk_links(s1, p, p.dsks);
    lemma_gpu_key_links(s1, p, p.dsks);
    let s3 = links::thumb_links(s2, p, p.inputs);
    lemma_thumb(s2, p, p.inputs);
    let s4 = gpu::pgm_link(s3, p);
    assert(contents::held_too(s3, s4));
    let s5 = links::pvw_links(s4, p, p.inputs);
    lemma_pvw(s4, p, p.inputs);
    let s6 = links::pip_links(s5, p, p.pips);
    lemma_tiles(s5, p, p.pips);
    let s7 = gpu::overlay_link(s6, p);
    assert(contents::held_too(s6, s7));
    contents::lemma_held_on(s5, s6, s7);
    contents::lemma_held_on(s4, s5, s7);
    contents::lemma_held_on(s3, s4, s7);
    contents::lemma_held_on(s2, s3, s7);
    contents::lemma_held_on(s1, s2, s7);
    contents::lemma_held_on(s0, s1, s7);
    assert forall|i: int| 0 <= i < p.inputs implies #[trigger] on_programme(s7, p, i) by {
        assert(on_programme(s1, p, i));
    }
    assert forall|i: int| 0 <= i < p.dsks implies #[trigger] card_key_on_programme(s7, p, i) by {
        assert(card_key_on_programme(s2, p, i));
    }
    assert forall|i: int| 0 <= i < p.inputs implies #[trigger] on_thumbnail(s7, p, i) by {
        assert(on_thumbnail(s3, p, i));
    }
    assert forall|i: int| 0 <= i < p.inputs implies #[trigger] on_preview(s7, p, i) by {
        assert(on_preview(s5, p, i));
    }
    assert forall|pip: int, i: int| 0 <= pip < p.pips && 0 <= i < p.inputs implies #[trigger] in_tile(
        s7,
        p,
        pip,
        i,
    ) by {
        assert(in_tile(s6, p, pip, i));
    }
}

proof fn lemma_audio(base: PlanInfo, p: PipelineInfo)
    ensures
        contents::held_too(base, links::audio_meters(base, p)),
        forall|i: int|
            0 <= i < p.inputs ==> #[trigger] is_measured(links::audio_meters(base, p), p, i),
        programme_is_measured(links::audio_meters(base, p), p),
{
    broadcast use contents::what_plans_hold;

    lemma_meters(base, p, p.inputs);
    let before = links::meters(base, p, p.inputs);
    let all = links::audio_meters(base, p);
    assert(contents::held_too(before, all));
    contents::lemma_held_on(base, before, all);
    assert forall|i: int| 0 <= i < p.inputs implies #[trigger] is_measured(all, p, i) by {
        assert(is_measured(before, p, i));
    }
}

/// Where pictures are mixed in memory, every input is heard of everywhere: it reaches
/// its pad on programme, its thumbnail, its pad for preview and its pad in every
/// tile. Keys lie over the inputs on programme, and what the mixer draws over all
/// else on the multiview.
pub proof fn pictures_reach_their_pads_in_memory(p: PipelineInfo)
    ensures
        ({
            let all = cpu::plain_cpu_plan(p);
            &&& forall|i: int| 0 <= i < p.inputs ==> #[trigger] enters_in_memory(all, p, i)
            &&& forall|i: int| 0 <= i < p.dsks ==> #[trigger] key_enters_in_memory(all, p, i)
            &&& forall|i: int| 0 <= i < p.inputs ==> #[trigger] on_programme(all, p, i)
            &&& forall|i: int| 0 <= i < p.dsks ==> #[trigger] key_on_programme(all, p, i)
            &&& forall|i: int| 0 <= i < p.inputs ==> #[trigger] on_thumbnail(all, p, i)
            &&& forall|i: int| 0 <= i < p.inputs ==> #[trigger] on_preview(all, p, i)
            &&& forall|pip: int, i: int|
                0 <= pip < p.pips && 0 <= i < p.inputs ==> #[trigger] in_tile(all, p, pip, i)
            &&& forall|i: int| 0 <= i < p.inputs ==> #[trigger] is_measured(all, p, i)
            &&& has_compositors(all, p)
            &&& leaves_memory(all, p)
            &&& is_drawn_over_multiview(all, p)
            &&& multiview_is_complete(all, p)
            &&& programme_is_measured(all, p)
        }),
{
    let s0 = params::compositors(p);
    lemma_compositors(p);
    let s1 = cpu::outputs(s0, p);
    lemma_cpu_outputs(s0, p);
    let s2 = cpu::inputs(s1, p, p.inputs);
    lemma_cpu_inputs(s1, p, p.inputs);
    let s3 = cpu::connections(s2, p);
    lemma_cpu_connections(s2, p);
    let s4 = links::audio_meters(s3, p);
    lemma_audio(s3, p);
    contents::lemma_held_on(s2, s3, s4);
    contents::lemma_held_on(s1, s2, s4);
    contents::lemma_held_on(s0, s1, s4);
    assert forall|i: int| 0 <= i < p.inputs implies #[trigger] enters_in_memory(s4, p, i) by {
        assert(enters_in_memory(s2, p, i));
    }
    assert forall|i: int| 0 <= i < p.dsks implies #[trigger] key_enters_in_memory(s4, p, i) by {
        assert(key_enters_in_memory(s1, p, i));
    }
    assert forall|i: int| 0 <= i < p.inputs implies #[trigger] on_programme(s4, p, i) by {
        assert(on_programme(s3, p, i));
    }
    assert forall|i: int| 0 <= i < p.dsks implies #[trigger] key_on_programme(s4, p, i) by {
        assert(key_on_programme(s3, p, i));
    }
    assert forall|i: int| 0 <= i < p.inputs implies #[trigger] on_thumbnail(s4, p, i) by {
        assert(on_thumbnail(s3, p, i));
    }
    assert forall|i: int| 0 <= i < p.inputs implies #[trigger] on_preview(s4, p, i) by {
        assert(on_preview(s3, p, i));
    }
    assert forall|pip: int, i: int| 0 <= pip < p.pips && 0 <= i < p.inputs implies #[trigger] in_tile(
        s4,
        p,
        pip,
        i,
    ) by {
        assert(in_tile(s3, p, pip, i));
    }
    assert forall|i: int| 0 <= i < p.inputs implies #[trigger] is_measured(s4, p, i) by {
        assert(is_measured(s4, p, i));
    }
}

proof fn lemma_pgm_overlay(base: PlanInfo, p: PipelineInfo)
    ensures
        contents::held_too(base, cpu::pgm_overlay(base, p)),
        p.pips > 0 ==> is_drawn_over_programme(cpu::pgm_overlay(base, p), p),
{
    broadcast use contents::what_plans_hold;

}

/// Where pictures can be cropped as well, they go through a crop on their way to
/// programme, preview and the tiles, and where there are tiles the mixer draws over
/// programme too, behind the keys.
pub proof fn cropped_pictures_reach_their_pads(p: PipelineInfo)
    ensures
        ({
            let all = cpu::cpu_plan(p);
            &&& forall|i: int| 0 <= i < p.inputs ==> #[trigger] enters_and_can_be_cropped(all, p, i)
            &&& forall|i: int| 0 <= i < p.dsks ==> #[trigger] key_enters_in_memory(all, p, i)
            &&& forall|i: int| 0 <= i < p.inputs ==> #[trigger] on_programme_cropped(all, p, i)
            &&& forall|i: int| 0 <= i < p.dsks ==> #[trigger] key_on_programme(all, p, i)
            &&& forall|i: int| 0 <= i < p.inputs ==> #[trigger] on_thumbnail(all, p, i)
            &&& forall|i: int| 0 <= i < p.inputs ==> #[trigger] on_preview_cropped(all, p, i)
            &&& forall|pip: int, i: int|
                0 <= pip < p.pips && 0 <= i < p.inputs ==> #[trigger] in_tile_cropped(all, p, pip, i)
            &&& forall|i: int| 0 <= i < p.inputs ==> #[trigger] is_measured(all, p, i)
            &&& has_compositors(all, p)
            &&& leaves_memory(all, p)
            &&& is_drawn_over_multiview(all, p)
            &&& p.pips > 0 ==> is_drawn_over_programme(all, p)
            &&& multiview_is_complete(all, p)
            &&& programme_is_measured(all, p)
            &&& p.pips > 0 ==> contents::joins(
                all,
                if p.format is Some {
                    part(p, "capsfilter_pgm_overlay"@)
                } else {
                    part(p, "videoconvert_pgm_overlay"@)
                },
                "src"@,
                part(p, "mixer"@),
                sink((p.inputs + p.dsks) as int),
            )
        }),
{
    let s0 = params::compositors(p);
    lemma_compositors(p);
    let s1 = cpu::outputs(s0, p);
    lemma_cpu_outputs(s0, p);
    let s2 = cpu::pgm_overlay(s1, p);
    lemma_pgm_overlay(s1, p);
    let s3 = cpu::cropped_inputs(s2, p, p.inputs);
    lemma_cpu_cropped_inputs(s2, p, p.inputs);
    let s4 = cpu::cropped_connections(s3, p);
    lemma_cropped_connections(s3, p);
    let s5 = links::audio_meters(s4, p);
    lemma_audio(s4, p);
    contents::lemma_held_on(s3, s4, s5);
    contents::lemma_held_on(s2, s3, s5);
    contents::lemma_held_on(s1, s2, s5);
    contents::lemma_held_on(s0, s1, s5);
    assert forall|i: int| 0 <= i < p.inputs implies #[trigger] enters_and_can_be_cropped(s5, p, i) by {
        assert(enters_and_can_be_cropped(s3, p, i));
    }
    assert forall|i: int| 0 <= i < p.dsks implies #[trigger] key_enters_in_memory(s5, p, i) by {
        assert(key_enters_in_memory(s1, p, i));
    }
    assert forall|i: int| 0 <= i < p.inputs implies #[trigger] on_programme_cropped(s5, p, i) by {
        assert(on_programme_cropped(s4, p, i));
    }
    assert forall|i: int| 0 <= i < p.dsks implies #[trigger] key_on_programme(s5, p, i) by {
        assert(key_on_programme(s4, p, i));
    }
    assert forall|i: int| 0 <= i < p.inputs implies #[trigger] on_thumbnail(s5, p, i) by {
        assert(on_thumbnail(s4, p, i));
    }
    assert forall|i: int| 0 <= i < p.inputs implies #[trigger] on_preview_cropped(s5, p, i) by {
        assert(on_preview_cropped(s4, p, i));
    }
    assert forall|pip: int, i: int| 0 <= pip < p.pips && 0 <= i < p.inputs implies #[trigger] in_tile_cropped(
        s5,
        p,
        pip,
        i,
    ) by {
        assert(in_tile_cropped(s4, p, pip, i));
    }
    assert forall|i: int| 0 <= i < p.inputs implies #[trigger] is_measured(s5, p, i) by {
        assert(is_measured(s5, p, i));
    }
}

/// Where pictures are mixed by the graphics card, they reach the same pads.
pub proof fn pictures_reach_their_pads_on_the_card(p: PipelineInfo)
    ensures
        ({
            let all = gpu::gpu_plan(p);
            &&& forall|i: int| 0 <= i < p.inputs ==> #[trigger] enters_on_the_card(all, p, i)
            &&& forall|i: int| 0 <= i < p.dsks ==> #[trigger] key_enters_on_the_card(all, p, i)
            &&& forall|i: int| 0 <= i < p.inputs ==> #[trigger] on_programme(all, p, i)
            &&& forall|i: int| 0 <= i < p.dsks ==> #[trigger] card_key_on_programme(all, p, i)
            &&& forall|i: int| 0 <= i < p.inputs ==> #[trigger] on_thumbnail(all, p, i)
            &&& forall|i: int| 0 <= i < p.inputs ==> #[trigger] on_preview(all, p, i)
            &&& forall|pip: int, i: int|
                0 <= pip < p.pips && 0 <= i < p.inputs ==> #[trigger] in_tile(all, p, pip, i)
            &&& forall|i: int| 0 <= i < p.inputs ==> #[trigger] is_measured(all, p, i)
            &&& has_compositors(all, p)
            &&& leaves_the_card(all, p)
            &&& programme_is_measured(all, p)
            &&& contents::joins(all, part(p, "tee_pgm"@), branch(1), part(p, "queue_pgm_mv"@), "sink"@)
            &&& contents::joins(all, part(p, "queue_pgm_mv"@), "src"@, part(p, "mv_comp"@), sink(p.inputs as int))
            &&& contents::joins(all, part(p, "glupload_overlay"@), "src"@, part(p, "mv_comp"@), sink((2 * p.inputs + 1 + p.pips * p.inputs) as int))
        }),
{
    let s0 = params::compositors(p);
    lemma_compositors(p);
    let s1 = gpu::outputs(s0, p);
    lemma_gpu_outputs(s0, p);
    let s2 = gpu::inputs(s1, p, p.inputs);
    lemma_gpu_inputs(s1, p, p.inputs);
    let s3 = gpu::connections(s2, p);
    lemma_gpu_connections(s2, p);
    let s4 = links::audio_meters(s3, p);
    lemma_audio(s3, p);
    contents::lemma_held_on(s2, s3, s4);
    contents::lemma_held_on(s1, s2, s4);
    contents::lemma_held_on(s0, s1, s4);
    assert forall|i: int| 0 <= i < p.inputs implies #[trigger] enters_on_the_card(s4, p, i) by {
        assert(enters_on_the_card(s2, p, i));
    }
    assert forall|i: int| 0 <= i < p.dsks implies #[trigger] key_enters_on_the_card(s4, p, i) by {
        assert(key_enters_on_the_card(s1, p, i));
    }
    assert forall|i: int| 0 <= i < p.inputs implies #[trigger] on_programme(s4, p, i) by {
        assert(on_programme(s3, p, i));
    }
    assert forall|i: int| 0 <= i < p.dsks implies #[trigger] card_key_on_programme(s4, p, i) by {
        assert(card_key_on_programme(s3, p, i));
    }
    assert forall|i: int| 0 <= i < p.inputs implies #[trigger] on_thumbnail(s4, p, i) by {
        assert(on_thumbnail(s3, p, i));
    }
    assert forall|i: int| 0 <= i < p.inputs implies #[trigger] on_preview(s4, p, i) by {
        assert(on_preview(s3, p, i));
    }
    assert forall|pip: int, i: int| 0 <= pip < p.pips && 0 <= i < p.inputs implies #[trigger] in_tile(
        s4,
        p,
        pip,
        i,
    ) by {
        assert(in_tile(s3, p, pip, i));
    }
    assert forall|i: int| 0 <= i < p.inputs implies #[trigger] is_measured(s4, p, i) by {
        assert(is_measured(s4, p, i));
    }
}

} // verus!
