//! Which picture stands where: laws on what programme, preview, the thumbnails
//! and the tiles show.

use crate::blocks::plan;
use crate::blocks::vision_mixer::geometry;
use crate::blocks::vision_mixer::geometry::{Compositor, GeometryStep, OnAir};
use crate::blocks::vision_mixer::layout;
use crate::blocks::vision_mixer::layout::{LayoutView, Rect};
use crate::blocks::vision_mixer::pads;
use crate::blocks::vision_mixer::pads::{
    PadSettingsInfo, PadsFrom, Placement, Source, ZonePad, Zorders,
};
use crate::blocks::vision_mixer::params;
use crate::properties::PropertyTree;
use vstd::prelude::*;

verus! {

// ---------------------------------------------------------------------------
// While the mixer runs
// ---------------------------------------------------------------------------

/// Programme shows the input or the tile that is on programme, over all of it,
/// whatever is on preview. While it is faded to black it is left alone.
pub proof fn programme_shows_what_is_on_programme(
    on_air: OnAir,
    view: LayoutView,
    canvas: Rect,
    z: Zorders,
)
    ensures
        ({
            let steps = geometry::refresh_steps(on_air, view, canvas, z);
            &&& !on_air.ftb_active && on_air.pgm_pip is None ==> steps.contains(
                GeometryStep::Inputs {
                    compositor: Compositor::Programme,
                    first_pad: 0,
                    active: on_air.pgm_input,
                    region: canvas,
                    zorder: z.dist_pgm,
                },
            )
            &&& !on_air.ftb_active && on_air.pgm_pip is Some ==> steps.contains(
                GeometryStep::Tile {
                    compositor: Compositor::Programme,
                    first_pad: 0,
                    pip: on_air.pgm_pip->0,
                    region: canvas,
                    bg_zorder: z.dist_pgm,
                    overlay_zorder: z.dist_pip_overlay,
                },
            )
            &&& on_air.ftb_active ==> forall|k: int|
                0 <= k < steps.len() ==> !is_on_programme(#[trigger] steps[k])
            &&& forall|k: int| 1 <= k < steps.len() ==> !is_on_programme(#[trigger] steps[k])
        }),
{
    let steps = geometry::refresh_steps(on_air, view, canvas, z);
    let head = geometry::pgm_steps(on_air, canvas, z);
    let n = on_air.num_inputs as int;
    if !on_air.ftb_active {
        assert(steps[0] == head[0]);
    }
    assert forall|k: int| head.len() <= k < steps.len() implies !is_on_programme(
        #[trigger] steps[k],
    ) by {
        if k < head.len() + n {
            assert(steps[k] == geometry::thumbnail_steps(view, n as nat)[k - head.len()]);
        } else if k == head.len() + n {
            assert(steps[k] == geometry::pvw_step(on_air, view, z));
        } else {
            assert(steps[k] == geometry::tile_step(on_air, view, z, k - head.len() - n - 1));
        }
    }
}

/// The step is about the programme compositor.
pub open spec fn is_on_programme(step: GeometryStep) -> bool {
    match step {
        GeometryStep::Tile { compositor, .. } => compositor == Compositor::Programme,
        GeometryStep::Inputs { compositor, .. } => compositor == Compositor::Programme,
        GeometryStep::Thumbnail { .. } => false,
    }
}

/// Preview shows the input or the tile that is on preview, in its region of
/// the multiview, whatever is on programme.
pub proof fn preview_shows_what_is_on_preview(
    on_air: OnAir,
    view: LayoutView,
    canvas: Rect,
    z: Zorders,
)
    requires
        on_air.num_inputs < usize::MAX,
    ensures
        ({
            let steps = geometry::refresh_steps(on_air, view, canvas, z);
            &&& on_air.pvw_pip is None ==> steps.contains(
                GeometryStep::Inputs {
                    compositor: Compositor::Multiview,
                    first_pad: (on_air.num_inputs + 1) as usize,
                    active: on_air.pvw_input,
                    region: view.pvw,
                    zorder: z.mv_big_display,
                },
            )
            &&& on_air.pvw_pip is Some ==> steps.contains(
                GeometryStep::Tile {
                    compositor: Compositor::Multiview,
                    first_pad: (on_air.num_inputs + 1) as usize,
                    pip: on_air.pvw_pip->0,
                    region: view.pvw,
                    bg_zorder: z.mv_big_display,
                    overlay_zorder: z.mv_pvw_pip_overlay,
                },
            )
        }),
{
    let steps = geometry::refresh_steps(on_air, view, canvas, z);
    let at = geometry::pgm_steps(on_air, canvas, z).len() + on_air.num_inputs;
    assert(steps[at] == geometry::pvw_step(on_air, view, z));
}

/// Every input has its own thumbnail, and every tile that has a place is laid
/// out there; nothing else is done beyond these, programme and preview.
pub proof fn thumbnails_and_tiles_have_their_places(
    on_air: OnAir,
    view: LayoutView,
    canvas: Rect,
    z: Zorders,
)
    requires
        2 * on_air.num_inputs + 1 + on_air.num_pips * on_air.num_inputs < usize::MAX,
    ensures
        ({
            let steps = geometry::refresh_steps(on_air, view, canvas, z);
            let tiles = if on_air.num_pips < view.pip_tiles.len() {
                on_air.num_pips as int
            } else {
                view.pip_tiles.len() as int
            };
            &&& steps.len() == (if on_air.ftb_active {
                0int
            } else {
                1
            }) + on_air.num_inputs + 1 + tiles
            &&& forall|i: int|
                #![trigger view.thumbnails[i]]
                0 <= i < on_air.num_inputs && i < view.thumbnails.len() ==> steps.contains(
                    GeometryStep::Thumbnail { pad: i as usize, rect: view.thumbnails[i] },
                )
            &&& forall|pip: int|
                #![trigger view.pip_tiles[pip]]
                0 <= pip < tiles ==> steps.contains(
                    GeometryStep::Tile {
                        compositor: Compositor::Multiview,
                        first_pad: (2 * on_air.num_inputs + 1 + pip
                            * on_air.num_inputs) as usize,
                        pip: pip as usize,
                        region: view.pip_tiles[pip],
                        bg_zorder: z.mv_pip_bg,
                        overlay_zorder: z.mv_pip_overlay,
                    },
                )
        }),
{
    let steps = geometry::refresh_steps(on_air, view, canvas, z);
    let head = geometry::pgm_steps(on_air, canvas, z).len();
    let n = on_air.num_inputs as int;
    assert forall|i: int|
        #![trigger view.thumbnails[i]]
        0 <= i < on_air.num_inputs && i < view.thumbnails.len() implies steps.contains(
        GeometryStep::Thumbnail { pad: i as usize, rect: view.thumbnails[i] },
    ) by {
        assert(steps[head + i] == geometry::thumbnail_steps(view, n as nat)[i]);
    }
    assert forall|pip: int|
        #![trigger view.pip_tiles[pip]]
        0 <= pip < geometry::placed_tiles(on_air, view) implies steps.contains(
        GeometryStep::Tile {
            compositor: Compositor::Multiview,
            first_pad: (2 * on_air.num_inputs + 1 + pip * on_air.num_inputs) as usize,
            pip: pip as usize,
            region: view.pip_tiles[pip],
            bg_zorder: z.mv_pip_bg,
            overlay_zorder: z.mv_pip_overlay,
        },
    ) by {
        assert(steps[head + n + 1 + pip] == geometry::tile_step(on_air, view, z, pip));
    }
}

// ---------------------------------------------------------------------------
// When the mixer starts
// ---------------------------------------------------------------------------

/// The bits of full opacity.
pub open spec fn opaque_bits() -> u64 {
    0x3ff0000000000000
}

/// A pad whose picture keeps its shape, stands in a rectangle and lies at a
/// place in the order. It has no other settings.
pub open spec fn stands(pad: PadSettingsInfo, rect: Rect, alpha: u64, zorder: int) -> bool {
    &&& pad.properties.len() == 7
    &&& pad.properties.contains(("xpos"@, PropertyTree::Int(rect.x as i64)))
    &&& pad.properties.contains(("ypos"@, PropertyTree::Int(rect.y as i64)))
    &&& pad.properties.contains(("width"@, PropertyTree::Int(rect.w as i64)))
    &&& pad.properties.contains(("height"@, PropertyTree::Int(rect.h as i64)))
    &&& pad.properties.contains(("alpha"@, PropertyTree::Float(alpha)))
    &&& pad.properties.contains(("zorder"@, PropertyTree::UInt(zorder as u64)))
    &&& pad.properties.contains(
        ("sizing-policy"@, PropertyTree::Text("keep-aspect-ratio"@)),
    )
}

proof fn lemma_video_pad_stands(element: Seq<char>, pad: int, placement: Placement)
    ensures
        stands(
            pads::video_pad(element, pad, placement),
            placement.rect,
            if placement.shown {
                opaque_bits()
            } else {
                0
            },
            placement.zorder as int,
        ),
{
    let p = pads::video_pad(element, pad, placement).properties;
    assert(p[0] == ("xpos"@, PropertyTree::Int(placement.rect.x as i64)));
    assert(p[1] == ("ypos"@, PropertyTree::Int(placement.rect.y as i64)));
    assert(p[2] == ("width"@, PropertyTree::Int(placement.rect.w as i64)));
    assert(p[3] == ("height"@, PropertyTree::Int(placement.rect.h as i64)));
    assert(p[4] == ("alpha"@, PropertyTree::Float(pads::opacity(placement.shown))));
    assert(p[5] == ("zorder"@, PropertyTree::UInt(placement.zorder)));
    assert(p[6] == ("sizing-policy"@, PropertyTree::Text("keep-aspect-ratio"@)));
}

/// No picture in the zones is of the input.
pub open spec fn is_in_no_zone(zones: Seq<ZonePad>, input: int) -> bool {
    forall|k: int| 0 <= k < zones.len() ==> (#[trigger] zones[k]).input != input
}

/// The first picture in the zones that is of the input is this one.
pub open spec fn is_first_zone(zones: Seq<ZonePad>, input: int, k: int) -> bool {
    &&& 0 <= k < zones.len()
    &&& zones[k].input == input
    &&& forall|m: int| 0 <= m < k ==> (#[trigger] zones[m]).input != input
}

/// A pad of an input where a tile is shown: the input behind the tile fills the
/// region, one in a zone has the rectangle of the zone and lies over it, and
/// any other is not seen.
pub open spec fn stands_in_tile(
    pad: PadSettingsInfo,
    behind: Option<usize>,
    zones: Seq<ZonePad>,
    input: int,
    region: Rect,
    bg_zorder: u32,
    overlay_zorder: u32,
) -> bool {
    let is_behind = behind is Some && behind->0 == input;
    &&& is_behind ==> stands(pad, region, opaque_bits(), bg_zorder as int)
    &&& forall|k: int|
        !is_behind && #[trigger] is_first_zone(zones, input, k) ==> stands(
            pad,
            zones[k].rect,
            opaque_bits(),
            overlay_zorder + zones[k].zorder_offset,
        )
    &&& !is_behind && is_in_no_zone(zones, input) ==> stands(
        pad,
        Rect { x: 0, y: 0, w: 1, h: 1 },
        0,
        bg_zorder as int,
    )
}

proof fn lemma_zone_found(zones: Seq<ZonePad>, input: int, from: int)
    requires
        0 <= from,
        forall|m: int| 0 <= m < from && m < zones.len() ==> (#[trigger] zones[m]).input != input,
    ensures
        forall|k: int| #[trigger]
            is_first_zone(zones, input, k) ==> pads::zone_pad_from(zones, input, from) == Some(
                zones[k],
            ),
        is_in_no_zone(zones, input) ==> pads::zone_pad_from(zones, input, from) is None,
    decreases zones.len() - from,
{
    if from < zones.len() {
        if zones[from].input == input {
            assert forall|k: int| #[trigger] is_first_zone(zones, input, k) implies k == from by {
                if k < from {
                    assert(zones[k].input != input);
                }
            }
        } else {
            lemma_zone_found(zones, input, from + 1);
        }
    } else {
        assert forall|k: int| !#[trigger] is_first_zone(zones, input, k) by {
            if 0 <= k < zones.len() {
                assert(zones[k].input != input);
            }
        }
    }
}

proof fn lemma_tile_pad(
    element: Seq<char>,
    pad: int,
    behind: Option<usize>,
    zones: Seq<ZonePad>,
    input: int,
    region: Rect,
    bg_zorder: u32,
    overlay_zorder: u32,
)
    requires
        forall|k: int|
            0 <= k < zones.len() ==> overlay_zorder + (#[trigger] zones[k]).zorder_offset
                <= u32::MAX,
    ensures
        stands_in_tile(
            pads::video_pad(
                element,
                pad,
                pads::tile_placement(behind, zones, input, region, bg_zorder, overlay_zorder),
            ),
            behind,
            zones,
            input,
            region,
            bg_zorder,
            overlay_zorder,
        ),
{
    let placement = pads::tile_placement(behind, zones, input, region, bg_zorder, overlay_zorder);
    lemma_zone_found(zones, input, 0);
    lemma_video_pad_stands(element, pad, placement);
}

/// Where an input is on programme when the mixer starts, it fills the canvas
/// and is seen, and no other input is; where a tile is, its inputs stand as the
/// tile says.
pub proof fn programme_starts_with_its_source(f: PadsFrom, i: int)
    requires
        pads::order_fits(f.p, f.zones, f.z),
        0 <= i < f.p.inputs,
    ensures
        ({
            let pad = pads::all_pads(f)[i];
            let canvas = Rect { x: 0, y: 0, w: f.p.pgm_w as i32, h: f.p.pgm_h as i32 };
            &&& pad.element == plan::member(f.p.instance, "mixer"@)
            &&& pad.pad == plan::numbered("sink_"@, i)
            &&& match f.start.pgm_source {
                Source::Input(active) => if i == active {
                    stands(pad, canvas, opaque_bits(), f.z.dist_pgm as int)
                } else {
                    stands(pad, canvas, 0, f.z.dist_pgm as int)
                },
                Source::Pip(pip) => pip < f.start.backgrounds.len() ==> stands_in_tile(
                    pad,
                    f.start.backgrounds[pip as int],
                    f.zones.pgm,
                    i,
                    canvas,
                    f.z.dist_pgm,
                    f.z.dist_pip_overlay,
                ),
            }
        }),
{
    let placement = pads::dist_placement(f.p, f.start, f.zones, f.z, i);
    pads::every_pad_is_set_once(f);
    assert(pads::all_pads(f)[i] == pads::dist_pads(f, f.p.inputs)[i]);
    lemma_video_pad_stands(f.p.id("mixer"@), i, placement);
    if let Source::Pip(pip) = f.start.pgm_source {
        lemma_tile_pad(
            f.p.id("mixer"@),
            i,
            pads::background_of(f.start.backgrounds, pip as int),
            f.zones.pgm,
            i,
            pads::canvas(f.p),
            f.z.dist_pgm,
            f.z.dist_pip_overlay,
        );
    }
}

/// Where an input is on preview when the mixer starts, it fills the preview
/// region and is seen, and no other input is; where a tile is, its inputs stand
/// as the tile says.
pub proof fn preview_starts_with_its_source(f: PadsFrom, i: int)
    requires
        pads::order_fits(f.p, f.zones, f.z),
        0 <= i < f.p.inputs,
    ensures
        ({
            let pad = pads::all_pads(f)[f.p.inputs + f.p.dsks + f.p.inputs + 1 + i];
            &&& pad.element == plan::member(f.p.instance, "mv_comp"@)
            &&& pad.pad == plan::numbered("sink_"@, f.p.inputs + 1 + i)
            &&& match f.start.pvw_source {
                Source::Input(active) => if i == active {
                    stands(pad, f.view.pvw, opaque_bits(), f.z.mv_big_display as int)
                } else {
                    stands(pad, Rect { x: 0, y: 0, w: 1, h: 1 }, 0, f.z.mv_big_display as int)
                },
                Source::Pip(pip) => pip < f.start.backgrounds.len() ==> stands_in_tile(
                    pad,
                    f.start.backgrounds[pip as int],
                    f.zones.pvw,
                    i,
                    f.view.pvw,
                    f.z.mv_big_display,
                    f.z.mv_pvw_pip_overlay,
                ),
            }
        }),
{
    let at = f.p.inputs + f.p.dsks + f.p.inputs + 1 + i;
    let placement = pads::pvw_placement(f.view, f.start, f.zones, f.z, i);
    pads::every_pad_is_set_once(f);
    lemma_multiview_pads(f);
    assert(0 <= f.p.pips * f.p.inputs) by (nonlinear_arith);
    assert(pads::all_pads(f)[at] == pads::pvw_pads(f, f.p.inputs)[i]);
    lemma_video_pad_stands(f.p.id("mv_comp"@), params::pvw_pad(f.p.inputs, i), placement);
    if let Source::Pip(pip) = f.start.pvw_source {
        lemma_tile_pad(
            f.p.id("mv_comp"@),
            params::pvw_pad(f.p.inputs, i),
            pads::background_of(f.start.backgrounds, pip as int),
            f.zones.pvw,
            i,
            f.view.pvw,
            f.z.mv_big_display,
            f.z.mv_pvw_pip_overlay,
        );
    }
}

proof fn lemma_multiview_pads(f: PadsFrom)
    ensures
        ({
            let from = (f.p.inputs + f.p.dsks) as int;
            let n = f.p.inputs as int;
            &&& pads::all_pads(f).len() >= from + n + 1 + n + 1
            &&& forall|i: int|
                0 <= i < n ==> #[trigger] pads::all_pads(f)[from + i] == pads::thumb_pads(
                    f,
                    f.p.inputs,
                )[i]
            &&& pads::all_pads(f)[from + n] == pads::pgm_settings(f)
            &&& forall|i: int|
                0 <= i < n ==> #[trigger] pads::all_pads(f)[from + n + 1 + i] == pads::pvw_pads(
                    f,
                    f.p.inputs,
                )[i]
            &&& forall|k: int|
                0 <= k < pads::tiles_pads(f, f.p.pips).len() ==> #[trigger] pads::all_pads(f)[from
                    + n + 1 + n + k] == pads::tiles_pads(f, f.p.pips)[k]
            &&& pads::all_pads(f).last() == pads::overlay_settings(f.p, f.z)
            &&& pads::all_pads(f).len() == from + n + 1 + n + pads::tiles_pads(f, f.p.pips).len()
                + 1
        }),
{
    let dist = pads::dist_pads(f, f.p.inputs);
    let dsk = pads::dsk_pads(f, f.p.dsks);
    let thumbs = pads::thumb_pads(f, f.p.inputs).push(pads::pgm_settings(f));
    let pvw = pads::pvw_pads(f, f.p.inputs);
    let tiles = pads::tiles_pads(f, f.p.pips).push(pads::overlay_settings(f.p, f.z));
    assert(pads::all_pads(f) == dist + dsk + thumbs + pvw + tiles);
}

/// A downstream key starts unseen, as large as programme, over the inputs and
/// the keys before it.
pub proof fn keys_start_unseen(f: PadsFrom, j: int)
    requires
        pads::order_fits(f.p, f.zones, f.z),
        0 <= j < f.p.dsks,
    ensures
        ({
            let pad = pads::all_pads(f)[f.p.inputs + j];
            &&& pad.element == plan::member(f.p.instance, "mixer"@)
            &&& pad.pad == plan::numbered("sink_"@, f.p.inputs + j)
            &&& pad.properties.contains(("width"@, PropertyTree::Int(f.p.pgm_w as i64)))
            &&& pad.properties.contains(("height"@, PropertyTree::Int(f.p.pgm_h as i64)))
            &&& pad.properties.contains(("alpha"@, PropertyTree::Float(0)))
            &&& pad.properties.contains(
                ("zorder"@, PropertyTree::UInt((f.z.dist_dsk_base + j) as u64)),
            )
            &&& pad.properties.contains(
                ("sizing-policy"@, PropertyTree::Text("keep-aspect-ratio"@)),
            )
            &&& pad.properties.len() == 5
        }),
{
    pads::every_pad_is_set_once(f);
    assert(pads::all_pads(f)[f.p.inputs + j] == pads::dsk_pads(f, f.p.dsks)[j]);
    let p = pads::dsk_settings(f.p, f.z, j).properties;
    assert(p[0] == ("width"@, PropertyTree::Int(f.p.pgm_w as i64)));
    assert(p[1] == ("height"@, PropertyTree::Int(f.p.pgm_h as i64)));
    assert(p[2] == ("alpha"@, PropertyTree::Float(0)));
    assert(p[3] == ("zorder"@, PropertyTree::UInt((f.z.dist_dsk_base + j) as u64)));
    assert(p[4] == ("sizing-policy"@, PropertyTree::Text("keep-aspect-ratio"@)));
}

/// In the multiview every input has its thumbnail, programme its own region,
/// and what is drawn over it lies over all of it.
pub proof fn multiview_starts_with_everything_seen(f: PadsFrom)
    ensures
        ({
            let from = (f.p.inputs + f.p.dsks) as int;
            let n = f.p.inputs as int;
            let all = pads::all_pads(f);
            &&& forall|i: int|
                #![trigger f.view.thumbnails[i]]
                0 <= i < n && i < f.view.thumbnails.len() ==> stands(
                    all[from + i],
                    f.view.thumbnails[i],
                    opaque_bits(),
                    f.z.mv_thumbnail as int,
                )
            &&& stands(all[from + n], f.view.pgm, opaque_bits(), f.z.mv_big_display as int)
            &&& all[from + n].pad == plan::numbered("sink_"@, n)
            &&& all.last().properties.contains(("xpos"@, PropertyTree::Int(0)))
            &&& all.last().properties.contains(("ypos"@, PropertyTree::Int(0)))
            &&& all.last().properties.contains(("width"@, PropertyTree::Int(f.p.mv_w as i64)))
            &&& all.last().properties.contains(("height"@, PropertyTree::Int(f.p.mv_h as i64)))
            &&& all.last().properties.contains(("alpha"@, PropertyTree::Float(opaque_bits())))
            &&& all.last().properties.contains(
                ("zorder"@, PropertyTree::UInt(f.z.mv_overlay as u64)),
            )
            &&& all.last().properties.len() == 6
        }),
{
    let from = (f.p.inputs + f.p.dsks) as int;
    let n = f.p.inputs as int;
    let all = pads::all_pads(f);
    let comp = f.p.id("mv_comp"@);
    lemma_multiview_pads(f);
    assert forall|i: int|
        #![trigger f.view.thumbnails[i]]
        0 <= i < n && i < f.view.thumbnails.len() implies stands(
        all[from + i],
        f.view.thumbnails[i],
        opaque_bits(),
        f.z.mv_thumbnail as int,
    ) by {
        let placement = Placement {
            rect: f.view.thumbnails[i],
            shown: true,
            zorder: f.z.mv_thumbnail as u64,
        };
        assert(all[from + i] == pads::thumb_pads(f, f.p.inputs)[i]);
        lemma_video_pad_stands(comp, i, placement);
    }
    lemma_video_pad_stands(
        comp,
        n,
        Placement { rect: f.view.pgm, shown: true, zorder: f.z.mv_big_display as u64 },
    );
    let p = pads::overlay_settings(f.p, f.z).properties;
    assert(p[0] == ("xpos"@, PropertyTree::Int(0)));
    assert(p[1] == ("ypos"@, PropertyTree::Int(0)));
    assert(p[2] == ("width"@, PropertyTree::Int(f.p.mv_w as i64)));
    assert(p[3] == ("height"@, PropertyTree::Int(f.p.mv_h as i64)));
    assert(p[4] == ("alpha"@, PropertyTree::Float(opaque_bits())));
    assert(p[5] == ("zorder"@, PropertyTree::UInt(f.z.mv_overlay as u64)));
}

proof fn lemma_tiles_at(f: PadsFrom, n: nat, pip: int, i: int)
    requires
        0 <= pip < n,
        0 <= i < f.p.inputs,
    ensures
        0 <= pip * f.p.inputs + i < pads::tiles_pads(f, n).len(),
        pads::tiles_pads(f, n)[pip * f.p.inputs + i] == pads::tile_pads(f, pip, f.p.inputs)[i],
        pads::tiles_pads(f, n).len() == n * f.p.inputs,
    decreases n,
{
    let before = pads::tiles_pads(f, (n - 1) as nat);
    lemma_tiles_len(f, (n - 1) as nat);
    lemma_tiles_len(f, n);
    assert(n * f.p.inputs == (n - 1) * f.p.inputs + f.p.inputs) by (nonlinear_arith);
    assert(pip * f.p.inputs >= 0) by (nonlinear_arith)
        requires
            0 <= pip,
    ;
    if pip < n - 1 {
        lemma_tiles_at(f, (n - 1) as nat, pip, i);
        assert(pads::tiles_pads(f, n)[pip * f.p.inputs + i] == before[pip * f.p.inputs + i]);
    } else {
        assert(pads::tiles_pads(f, n)[before.len() + i] == pads::tile_pads(
            f,
            n - 1,
            f.p.inputs,
        )[i]);
    }
}

proof fn lemma_tiles_len(f: PadsFrom, n: nat)
    ensures
        pads::tiles_pads(f, n).len() == n * f.p.inputs,
    decreases n,
{
    if n > 0 {
        lemma_tiles_len(f, (n - 1) as nat);
        assert(n * f.p.inputs == (n - 1) * f.p.inputs + f.p.inputs) by (nonlinear_arith);
    } else {
        assert(0 * f.p.inputs == 0) by (nonlinear_arith);
    }
}

/// Every tile of the multiview starts with its own inputs, in its own region.
pub proof fn tiles_start_with_their_inputs(f: PadsFrom, pip: int, i: int)
    requires
        pads::order_fits(f.p, f.zones, f.z),
        0 <= pip < f.p.pips,
        pip < f.view.pip_tiles.len(),
        pip < f.start.backgrounds.len(),
        pip < f.zones.tiles.len(),
        0 <= i < f.p.inputs,
    ensures
        ({
            let pad = pads::all_pads(f)[f.p.inputs + f.p.dsks + 2 * f.p.inputs + 1 + pip
                * f.p.inputs + i];
            &&& pad.element == plan::member(f.p.instance, "mv_comp"@)
            &&& pad.pad == plan::numbered("sink_"@, 2 * f.p.inputs + 1 + pip * f.p.inputs + i)
            &&& stands_in_tile(
                pad,
                f.start.backgrounds[pip],
                f.zones.tiles[pip],
                i,
                f.view.pip_tiles[pip],
                f.z.mv_pip_bg,
                f.z.mv_pip_overlay,
            )
        }),
{
    let from = (f.p.inputs + f.p.dsks) as int;
    let n = f.p.inputs as int;
    let k = pip * f.p.inputs + i;
    lemma_multiview_pads(f);
    lemma_tiles_at(f, f.p.pips, pip, i);
    assert(pads::all_pads(f)[from + n + 1 + n + k] == pads::tiles_pads(f, f.p.pips)[k]);
    assert(from + n + 1 + n + k == f.p.inputs + f.p.dsks + 2 * f.p.inputs + 1 + pip * f.p.inputs
        + i);
    lemma_tile_pad(
        f.p.id("mv_comp"@),
        params::pip_pad(f.p.inputs, pip, i),
        f.start.backgrounds[pip],
        f.zones.tiles[pip],
        i,
        f.view.pip_tiles[pip],
        f.z.mv_pip_bg,
        f.z.mv_pip_overlay,
    );
}

/// The grid has no more columns or rows than it needs: five columns at least,
/// seven at most, and a further column or row only where the slots would not
/// fit otherwise.
pub proof fn grid_is_no_larger_than_needed(n: int)
    requires
        n > 0,
    ensures
        ({
            let (columns, rows) = layout::grid_for(n);
            &&& 5 <= columns <= 7
            &&& columns > 5 ==> (columns - 1) * rows < n
            &&& rows == 1 <==> n <= 5
            &&& rows > 2 ==> 7 * (rows - 1) < n
            &&& columns * rows >= n
        }),
{
    layout::grid_holds_all_slots(n);
    let (columns, rows) = layout::grid_for(n);
    assert(columns > 5 ==> (columns - 1) * rows < n) by (nonlinear_arith)
        requires
            columns == 5 || (columns == 6 && 5 * rows < n) || (columns == 7 && 6 * rows < n),
    ;
}

} // verus!
