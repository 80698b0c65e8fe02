//! How the pads of the compositors are set when the mixer starts.

use crate::blocks::plan;
use crate::blocks::vision_mixer::layout;
use crate::blocks::vision_mixer::layout::{LayoutView, MultiviewLayout, Rect};
use crate::blocks::vision_mixer::params;
use crate::blocks::vision_mixer::params::{PipelineInfo, PipelineParams};
use crate::properties::{
    Properties, PropertyMap, PropertyTree, PropertyValue, FLOAT_ONE, FLOAT_ZERO,
};
use vstd::prelude::*;

verus! {

/// What is on programme or preview.
#[derive(Clone, Copy, Debug, PartialEq, Eq, Structural)]
pub enum Source {
    Input(usize),
    Pip(usize),
}

impl Source {
    pub open spec fn pip(self) -> Option<usize> {
        match self {
            Source::Input(_) => None,
            Source::Pip(pip) => Some(pip),
        }
    }

    pub fn as_pip(self) -> (r: Option<usize>)
        ensures
            r == self.pip(),
    {
        match self {
            Source::Input(_) => None,
            Source::Pip(pip) => Some(pip),
        }
    }
}

/// Which pictures lie over which.
#[derive(Clone, Copy, Debug, PartialEq, Eq, Structural)]
pub struct Zorders {
    pub dist_pgm: u32,
    pub dist_pip_overlay: u32,
    pub dist_dsk_base: u32,
    pub mv_thumbnail: u32,
    pub mv_big_display: u32,
    pub mv_pvw_pip_overlay: u32,
    pub mv_pip_bg: u32,
    pub mv_pip_overlay: u32,
    pub mv_overlay: u32,
}

/// Where an input stands in a zone, and how far over the zone's first picture.
#[derive(Clone, Copy, Debug, PartialEq, Eq, Structural)]
pub struct ZonePad {
    pub input: usize,
    pub rect: Rect,
    pub zorder_offset: u32,
}

/// Where the inputs in zones stand: on programme and on preview, where those
/// show a tile, and in every tile.
pub struct ZonePads {
    pub pgm: Vec<ZonePad>,
    pub pvw: Vec<ZonePad>,
    pub tiles: Vec<Vec<ZonePad>>,
}

pub struct ZonePadsInfo {
    pub pgm: Seq<ZonePad>,
    pub pvw: Seq<ZonePad>,
    pub tiles: Seq<Seq<ZonePad>>,
}

impl View for ZonePads {
    type V = ZonePadsInfo;

    open spec fn view(&self) -> ZonePadsInfo {
        ZonePadsInfo {
            pgm: self.pgm@,
            pvw: self.pvw@,
            tiles: self.tiles@.map_values(|t: Vec<ZonePad>| t@),
        }
    }
}

/// What is shown when the mixer starts.
pub struct MixerStart {
    pub pgm_source: Source,
    pub pvw_source: Source,
    /// The input behind each tile.
    pub pip_bg_inputs: Vec<Option<usize>>,
}

pub struct StartInfo {
    pub pgm_source: Source,
    pub pvw_source: Source,
    pub backgrounds: Seq<Option<usize>>,
}

impl View for MixerStart {
    type V = StartInfo;

    open spec fn view(&self) -> StartInfo {
        StartInfo {
            pgm_source: self.pgm_source,
            pvw_source: self.pvw_source,
            backgrounds: self.pip_bg_inputs@,
        }
    }
}

/// The input behind a tile.
pub open spec fn background_of(backgrounds: Seq<Option<usize>>, pip: int) -> Option<usize> {
    if 0 <= pip < backgrounds.len() {
        backgrounds[pip]
    } else {
        None
    }
}

/// The input behind a tile.
pub fn background(backgrounds: &Vec<Option<usize>>, pip: usize) -> (r: Option<usize>)
    ensures
        r == background_of(backgrounds@, pip as int),
{
    if pip < backgrounds.len() {
        backgrounds[pip]
    } else {
        None
    }
}

// ---------------------------------------------------------------------------
// One pad
// ---------------------------------------------------------------------------

/// Where a picture stands, whether it is shown, and what it lies over.
#[derive(Clone, Copy, Debug, PartialEq, Eq, Structural)]
pub struct Placement {
    pub rect: Rect,
    pub shown: bool,
    pub zorder: u64,
}

/// The first pad from `i` on that is for the input.
pub open spec fn zone_pad_from(pads: Seq<ZonePad>, input: int, i: int) -> Option<ZonePad>
    decreases pads.len() - i,
{
    if i >= pads.len() {
        None
    } else if pads[i].input == input {
        Some(pads[i])
    } else {
        zone_pad_from(pads, input, i + 1)
    }
}

/// Every picture in a zone has a place in the order over `base`.
pub open spec fn zorders_fit(pads: Seq<ZonePad>, base: u32) -> bool {
    forall|i: int| 0 <= i < pads.len() ==> base + (#[trigger] pads[i]).zorder_offset <= u32::MAX
}

/// How an input stands where a tile is shown: the background fills the region,
/// an input in a zone has its own rectangle, and the rest are hidden.
pub open spec fn tile_placement(
    background: Option<usize>,
    pads: Seq<ZonePad>,
    input: int,
    region: Rect,
    bg_zorder: u32,
    overlay_zorder: u32,
) -> Placement {
    if background matches Some(b) && b == input {
        Placement { rect: region, shown: true, zorder: bg_zorder as u64 }
    } else {
        match zone_pad_from(pads, input, 0) {
            Some(pad) => Placement {
                rect: pad.rect,
                shown: true,
                zorder: (overlay_zorder + pad.zorder_offset) as u64,
            },
            None => Placement {
                rect: layout::hidden_rect(),
                shown: false,
                zorder: bg_zorder as u64,
            },
        }
    }
}

/// How an input stands where a tile is shown.
pub fn initial_pad_geom_for_input(
    background: Option<usize>,
    pads: &Vec<ZonePad>,
    input: usize,
    region: Rect,
    bg_zorder: u32,
    overlay_zorder: u32,
) -> (r: Placement)
    requires
        zorders_fit(pads@, overlay_zorder),
    ensures
        r == tile_placement(
            background,
            pads@,
            input as int,
            region,
            bg_zorder,
            overlay_zorder,
        ),
{
    match background {
        Some(b) => {
            if b == input {
                return Placement { rect: region, shown: true, zorder: bg_zorder as u64 };
            }
        },
        None => {},
    }
    let mut i: usize = 0;
    while i < pads.len()
        invariant
            i <= pads.len(),
            zorders_fit(pads@, overlay_zorder),
            !(background matches Some(b) && b == input),
            zone_pad_from(pads@, input as int, i as int) == zone_pad_from(
                pads@,
                input as int,
                0,
            ),
        decreases pads.len() - i,
    {
        if pads[i].input == input {
            assert(overlay_zorder + pads@[i as int].zorder_offset <= u32::MAX);
            return Placement {
                rect: pads[i].rect,
                shown: true,
                zorder: (overlay_zorder + pads[i].zorder_offset) as u64,
            };
        }
        i += 1;
    }
    Placement { rect: Rect { x: 0, y: 0, w: 1, h: 1 }, shown: false, zorder: bg_zorder as u64 }
}

/// What is set on a pad.
pub struct PadSettings {
    pub element: String,
    pub pad: String,
    pub properties: Properties,
}

pub struct PadSettingsInfo {
    pub element: Seq<char>,
    pub pad: Seq<char>,
    pub properties: PropertyMap,
}

impl View for PadSettings {
    type V = PadSettingsInfo;

    open spec fn view(&self) -> PadSettingsInfo {
        PadSettingsInfo {
            element: self.element@,
            pad: self.pad@,
            properties: self.properties@,
        }
    }
}

pub open spec fn settings_infos(v: Seq<PadSettings>) -> Seq<PadSettingsInfo> {
    v.map_values(|s: PadSettings| s@)
}

/// The bits of full or no opacity.
pub open spec fn opacity(shown: bool) -> u64 {
    if shown {
        FLOAT_ONE
    } else {
        FLOAT_ZERO
    }
}

/// A rectangle and an opacity as properties of a pad.
pub open spec fn placed(rect: Rect, shown: bool, zorder: u64) -> PropertyMap {
    Seq::<(Seq<char>, PropertyTree)>::empty().push(
        ("xpos"@, PropertyTree::Int(rect.x as i64)),
    ).push(("ypos"@, PropertyTree::Int(rect.y as i64))).push(
        ("width"@, PropertyTree::Int(rect.w as i64)),
    ).push(("height"@, PropertyTree::Int(rect.h as i64))).push(
        ("alpha"@, PropertyTree::Float(opacity(shown))),
    ).push(("zorder"@, PropertyTree::UInt(zorder)))
}

fn place_properties(rect: Rect, shown: bool, zorder: u64) -> (r: Properties)
    ensures
        r@ == placed(rect, shown, zorder),
{
    let alpha: u64 = if shown {
        FLOAT_ONE
    } else {
        FLOAT_ZERO
    };
    let mut properties = Properties::new();
    properties.add("xpos", PropertyValue::Int(rect.x as i64));
    properties.add("ypos", PropertyValue::Int(rect.y as i64));
    properties.add("width", PropertyValue::Int(rect.w as i64));
    properties.add("height", PropertyValue::Int(rect.h as i64));
    properties.add("alpha", PropertyValue::Float(alpha));
    properties.add("zorder", PropertyValue::UInt(zorder));
    properties
}

/// That a picture keeps its shape.
pub open spec fn keep_shape() -> (Seq<char>, PropertyTree) {
    ("sizing-policy"@, PropertyTree::Text("keep-aspect-ratio"@))
}

/// A picture on a pad, in its own shape.
pub open spec fn video_pad(element: Seq<char>, pad: int, placement: Placement) -> PadSettingsInfo {
    PadSettingsInfo {
        element,
        pad: plan::numbered("sink_"@, pad),
        properties: placed(placement.rect, placement.shown, placement.zorder).push(keep_shape()),
    }
}

fn make_video_pad(element: &str, pad: usize, placement: Placement) -> (r: PadSettings)
    ensures
        r@ == video_pad(element@, pad as int, placement),
{
    let mut properties = place_properties(placement.rect, placement.shown, placement.zorder);
    properties.add("sizing-policy", PropertyValue::String("keep-aspect-ratio".to_owned()));
    PadSettings {
        element: element.to_owned(),
        pad: plan::numbered_name("sink_", pad),
        properties,
    }
}

/// A downstream key: as large as programme, over all inputs, and not shown yet.
pub open spec fn dsk_settings(p: PipelineInfo, z: Zorders, i: int) -> PadSettingsInfo {
    PadSettingsInfo {
        element: p.id("mixer"@),
        pad: plan::numbered("sink_"@, params::dsk_pad(p.inputs, i)),
        properties: Seq::<(Seq<char>, PropertyTree)>::empty().push(
            ("width"@, PropertyTree::Int(p.pgm_w as i64)),
        ).push(("height"@, PropertyTree::Int(p.pgm_h as i64))).push(
            ("alpha"@, PropertyTree::Float(FLOAT_ZERO)),
        ).push(("zorder"@, PropertyTree::UInt((z.dist_dsk_base + i) as u64))).push(keep_shape()),
    }
}

fn make_dsk_settings(p: &PipelineParams, z: Zorders, i: usize) -> (r: PadSettings)
    requires
        p@.fits(),
        i < p.num_dsk_inputs,
        z.dist_dsk_base + p.num_dsk_inputs <= u64::MAX,
    ensures
        r@ == dsk_settings(p@, z, i as int),
{
    let mut properties = Properties::new();
    properties.add("width", PropertyValue::Int(p.pgm_w as i64));
    properties.add("height", PropertyValue::Int(p.pgm_h as i64));
    properties.add("alpha", PropertyValue::Float(FLOAT_ZERO));
    properties.add("zorder", PropertyValue::UInt(z.dist_dsk_base as u64 + i as u64));
    properties.add("sizing-policy", PropertyValue::String("keep-aspect-ratio".to_owned()));
    PadSettings {
        element: p.id("mixer"),
        pad: plan::numbered_name("sink_", p.num_inputs + i),
        properties,
    }
}

/// What is drawn over the multiview: all of it, over everything.
pub open spec fn overlay_settings(p: PipelineInfo, z: Zorders) -> PadSettingsInfo {
    PadSettingsInfo {
        element: p.id("mv_comp"@),
        pad: plan::numbered("sink_"@, params::overlay_pad(p.inputs, p.pips)),
        properties: Seq::<(Seq<char>, PropertyTree)>::empty().push(
            ("xpos"@, PropertyTree::Int(0)),
        ).push(("ypos"@, PropertyTree::Int(0))).push(
            ("width"@, PropertyTree::Int(p.mv_w as i64)),
        ).push(("height"@, PropertyTree::Int(p.mv_h as i64))).push(
            ("alpha"@, PropertyTree::Float(FLOAT_ONE)),
        ).push(("zorder"@, PropertyTree::UInt(z.mv_overlay as u64))),
    }
}

fn make_overlay_settings(p: &PipelineParams, z: Zorders) -> (r: PadSettings)
    requires
        p@.fits(),
    ensures
        r@ == overlay_settings(p@, z),
{
    let mut properties = Properties::new();
    properties.add("xpos", PropertyValue::Int(0));
    properties.add("ypos", PropertyValue::Int(0));
    properties.add("width", PropertyValue::Int(p.mv_w as i64));
    properties.add("height", PropertyValue::Int(p.mv_h as i64));
    properties.add("alpha", PropertyValue::Float(FLOAT_ONE));
    properties.add("zorder", PropertyValue::UInt(z.mv_overlay as u64));
    PadSettings {
        element: p.id("mv_comp"),
        pad: plan::numbered_name("sink_", params::overlay_pad_index(p.num_inputs, p.num_pips)),
        properties,
    }
}

// ---------------------------------------------------------------------------
// Where each input stands
// ---------------------------------------------------------------------------

/// All of programme.
pub open spec fn canvas(p: PipelineInfo) -> Rect {
    Rect { x: 0, y: 0, w: p.pgm_w as i32, h: p.pgm_h as i32 }
}

/// How an input stands on programme: the one that is on fills it, the others
/// are not shown.
pub open spec fn dist_placement(
    p: PipelineInfo,
    start: StartInfo,
    zones: ZonePadsInfo,
    z: Zorders,
    i: int,
) -> Placement {
    match start.pgm_source {
        Source::Input(active) => Placement {
            rect: canvas(p),
            shown: i == active,
            zorder: z.dist_pgm as u64,
        },
        Source::Pip(pip) => tile_placement(
            background_of(start.backgrounds, pip as int),
            zones.pgm,
            i,
            canvas(p),
            z.dist_pgm,
            z.dist_pip_overlay,
        ),
    }
}

fn place_on_dist(
    p: &PipelineParams,
    start: &MixerStart,
    zones: &ZonePads,
    z: Zorders,
    i: usize,
) -> (r: Placement)
    requires
        zorders_fit(zones.pgm@, z.dist_pip_overlay),
    ensures
        r == dist_placement(p@, start@, zones@, z, i as int),
{
    let whole = Rect { x: 0, y: 0, w: p.pgm_w as i32, h: p.pgm_h as i32 };
    match start.pgm_source {
        Source::Input(active) => Placement {
            rect: whole,
            shown: i == active,
            zorder: z.dist_pgm as u64,
        },
        Source::Pip(pip) => initial_pad_geom_for_input(
            background(&start.pip_bg_inputs, pip),
            &zones.pgm,
            i,
            whole,
            z.dist_pgm,
            z.dist_pip_overlay,
        ),
    }
}

/// How an input stands on preview.
pub open spec fn pvw_placement(
    view: LayoutView,
    start: StartInfo,
    zones: ZonePadsInfo,
    z: Zorders,
    i: int,
) -> Placement {
    match start.pvw_source {
        Source::Input(active) => if i == active {
            Placement { rect: view.pvw, shown: true, zorder: z.mv_big_display as u64 }
        } else {
            Placement {
                rect: layout::hidden_rect(),
                shown: false,
                zorder: z.mv_big_display as u64,
            }
        },
        Source::Pip(pip) => tile_placement(
            background_of(start.backgrounds, pip as int),
            zones.pvw,
            i,
            view.pvw,
            z.mv_big_display,
            z.mv_pvw_pip_overlay,
        ),
    }
}

fn place_on_pvw(
    view: &MultiviewLayout,
    start: &MixerStart,
    zones: &ZonePads,
    z: Zorders,
    i: usize,
) -> (r: Placement)
    requires
        zorders_fit(zones.pvw@, z.mv_pvw_pip_overlay),
    ensures
        r == pvw_placement(view@, start@, zones@, z, i as int),
{
    let whole = layout::pvw_pad_position(view);
    match start.pvw_source {
        Source::Input(active) => if i == active {
            Placement { rect: whole, shown: true, zorder: z.mv_big_display as u64 }
        } else {
            Placement {
                rect: Rect { x: 0, y: 0, w: 1, h: 1 },
                shown: false,
                zorder: z.mv_big_display as u64,
            }
        },
        Source::Pip(pip) => initial_pad_geom_for_input(
            background(&start.pip_bg_inputs, pip),
            &zones.pvw,
            i,
            whole,
            z.mv_big_display,
            z.mv_pvw_pip_overlay,
        ),
    }
}

/// The zones of a tile.
pub open spec fn tile_zones(zones: ZonePadsInfo, pip: int) -> Seq<ZonePad> {
    if 0 <= pip < zones.tiles.len() {
        zones.tiles[pip]
    } else {
        Seq::empty()
    }
}

/// How an input stands in a tile of the multiview.
pub open spec fn pip_placement(
    view: LayoutView,
    start: StartInfo,
    zones: ZonePadsInfo,
    z: Zorders,
    pip: int,
    i: int,
) -> Placement {
    tile_placement(
        background_of(start.backgrounds, pip),
        tile_zones(zones, pip),
        i,
        layout::rect_at(view.pip_tiles, pip),
        z.mv_pip_bg,
        z.mv_pip_overlay,
    )
}

fn place_in_tile(
    view: &MultiviewLayout,
    start: &MixerStart,
    zones: &ZonePads,
    z: Zorders,
    pip: usize,
    i: usize,
) -> (r: Placement)
    requires
        forall|t: int|
            0 <= t < zones@.tiles.len() ==> zorders_fit(
                #[trigger] zones@.tiles[t],
                z.mv_pip_overlay,
            ),
    ensures
        r == pip_placement(view@, start@, zones@, z, pip as int, i as int),
{
    let behind = background(&start.pip_bg_inputs, pip);
    let region = layout::pip_bg_pad_position(view, pip);
    if pip < zones.tiles.len() {
        assert(zones@.tiles[pip as int] == zones.tiles@[pip as int]@);
        initial_pad_geom_for_input(
            behind,
            &zones.tiles[pip],
            i,
            region,
            z.mv_pip_bg,
            z.mv_pip_overlay,
        )
    } else {
        let none: Vec<ZonePad> = Vec::new();
        initial_pad_geom_for_input(behind, &none, i, region, z.mv_pip_bg, z.mv_pip_overlay)
    }
}

// ---------------------------------------------------------------------------
// All pads
// ---------------------------------------------------------------------------

/// What all pads are set from.
pub struct PadsFrom {
    pub p: PipelineInfo,
    pub view: LayoutView,
    pub start: StartInfo,
    pub zones: ZonePadsInfo,
    pub z: Zorders,
}

/// Every number in the order of the pictures exists.
pub open spec fn order_fits(p: PipelineInfo, zones: ZonePadsInfo, z: Zorders) -> bool {
    &&& zorders_fit(zones.pgm, z.dist_pip_overlay)
    &&& zorders_fit(zones.pvw, z.mv_pvw_pip_overlay)
    &&& forall|t: int|
        0 <= t < zones.tiles.len() ==> zorders_fit(#[trigger] zones.tiles[t], z.mv_pip_overlay)
    &&& z.dist_dsk_base + p.dsks <= u64::MAX
}

/// The first `n` inputs on programme.
pub open spec fn dist_pads(f: PadsFrom, n: nat) -> Seq<PadSettingsInfo> {
    Seq::new(
        n,
        |i: int|
            video_pad(f.p.id("mixer"@), i, dist_placement(f.p, f.start, f.zones, f.z, i)),
    )
}

/// The first `n` downstream keys.
pub open spec fn dsk_pads(f: PadsFrom, n: nat) -> Seq<PadSettingsInfo> {
    Seq::new(n, |i: int| dsk_settings(f.p, f.z, i))
}

/// The thumbnails of the first `n` inputs.
pub open spec fn thumb_pads(f: PadsFrom, n: nat) -> Seq<PadSettingsInfo> {
    Seq::new(
        n,
        |i: int|
            video_pad(
                f.p.id("mv_comp"@),
                params::thumb_pad(i),
                Placement {
                    rect: layout::rect_at(f.view.thumbnails, i),
                    shown: true,
                    zorder: f.z.mv_thumbnail as u64,
                },
            ),
    )
}

/// Programme in the multiview.
pub open spec fn pgm_settings(f: PadsFrom) -> PadSettingsInfo {
    video_pad(
        f.p.id("mv_comp"@),
        params::pgm_pad(f.p.inputs),
        Placement { rect: f.view.pgm, shown: true, zorder: f.z.mv_big_display as u64 },
    )
}

/// The first `n` inputs on preview.
pub open spec fn pvw_pads(f: PadsFrom, n: nat) -> Seq<PadSettingsInfo> {
    Seq::new(
        n,
        |i: int|
            video_pad(
                f.p.id("mv_comp"@),
                params::pvw_pad(f.p.inputs, i),
                pvw_placement(f.view, f.start, f.zones, f.z, i),
            ),
    )
}

/// The first `n` inputs in a tile.
pub open spec fn tile_pads(f: PadsFrom, pip: int, n: nat) -> Seq<PadSettingsInfo> {
    Seq::new(
        n,
        |i: int|
            video_pad(
                f.p.id("mv_comp"@),
                params::pip_pad(f.p.inputs, pip, i),
                pip_placement(f.view, f.start, f.zones, f.z, pip, i),
            ),
    )
}

/// All inputs in the first `n` tiles.
pub open spec fn tiles_pads(f: PadsFrom, n: nat) -> Seq<PadSettingsInfo>
    decreases n,
{
    if n == 0 {
        Seq::empty()
    } else {
        tiles_pads(f, (n - 1) as nat) + tile_pads(f, n - 1, f.p.inputs)
    }
}

/// How all pads are set.
pub open spec fn all_pads(f: PadsFrom) -> Seq<PadSettingsInfo> {
    dist_pads(f, f.p.inputs) + dsk_pads(f, f.p.dsks) + thumb_pads(f, f.p.inputs).push(
        pgm_settings(f),
    ) + pvw_pads(f, f.p.inputs) + tiles_pads(f, f.p.pips).push(overlay_settings(f.p, f.z))
}

fn push(all: &mut Vec<PadSettings>, pad: PadSettings)
    ensures
        settings_infos(final(all)@) == settings_infos(old(all)@).push(pad@),
{
    let ghost before = settings_infos(all@);
    let ghost added = pad@;
    all.push(pad);
    assert(settings_infos(all@) =~= before.push(added));
}

fn append(all: &mut Vec<PadSettings>, more: Vec<PadSettings>)
    ensures
        settings_infos(final(all)@) == settings_infos(old(all)@) + settings_infos(more@),
{
    let ghost before = all@;
    let ghost added = more@;
    let mut more = more;
    all.append(&mut more);
    assert(settings_infos(all@) =~= settings_infos(before) + settings_infos(added));
}

fn make_dist_pads(
    p: &PipelineParams,
    start: &MixerStart,
    zones: &ZonePads,
    z: Zorders,
    view: &MultiviewLayout,
) -> (r: Vec<PadSettings>)
    requires
        order_fits(p@, zones@, z),
    ensures
        settings_infos(r@) == dist_pads(
            PadsFrom { p: p@, view: view@, start: start@, zones: zones@, z },
            p.num_inputs as nat,
        ),
{
    let ghost f = PadsFrom { p: p@, view: view@, start: start@, zones: zones@, z };
    let mixer = p.id("mixer");
    let mut out: Vec<PadSettings> = Vec::new();
    let mut i: usize = 0;
    while i < p.num_inputs
        invariant
            i <= p.num_inputs,
            order_fits(p@, zones@, z),
            f == (PadsFrom { p: p@, view: view@, start: start@, zones: zones@, z }),
            mixer@ == p@.id("mixer"@),
            settings_infos(out@) =~= dist_pads(f, i as nat),
        decreases p.num_inputs - i,
    {
        push(
            &mut out,
            make_video_pad(mixer.as_str(), i, place_on_dist(p, start, zones, z, i)),
        );
        assert(settings_infos(out@) =~= dist_pads(f, (i + 1) as nat));
        i += 1;
    }
    out
}

fn make_dsk_pads(p: &PipelineParams, z: Zorders, f: Ghost<PadsFrom>) -> (r: Vec<PadSettings>)
    requires
        p@.fits(),
        z.dist_dsk_base + p.num_dsk_inputs <= u64::MAX,
        f@.p == p@,
        f@.z == z,
    ensures
        settings_infos(r@) == dsk_pads(f@, p.num_dsk_inputs as nat),
{
    let mut out: Vec<PadSettings> = Vec::new();
    let mut i: usize = 0;
    while i < p.num_dsk_inputs
        invariant
            i <= p.num_dsk_inputs,
            p@.fits(),
            z.dist_dsk_base + p.num_dsk_inputs <= u64::MAX,
            f@.p == p@,
            f@.z == z,
            settings_infos(out@) =~= dsk_pads(f@, i as nat),
        decreases p.num_dsk_inputs - i,
    {
        push(&mut out, make_dsk_settings(p, z, i));
        assert(settings_infos(out@) =~= dsk_pads(f@, (i + 1) as nat));
        i += 1;
    }
    out
}

fn make_thumb_pads(p: &PipelineParams, z: Zorders, view: &MultiviewLayout, f: Ghost<PadsFrom>) -> (r:
    Vec<PadSettings>)
    requires
        f@.p == p@,
        f@.z == z,
        f@.view == view@,
    ensures
        settings_infos(r@) == thumb_pads(f@, p.num_inputs as nat).push(pgm_settings(f@)),
{
    let mv_comp = p.id("mv_comp");
    let mut out: Vec<PadSettings> = Vec::new();
    let mut i: usize = 0;
    while i < p.num_inputs
        invariant
            i <= p.num_inputs,
            f@.p == p@,
            f@.z == z,
            f@.view == view@,
            mv_comp@ == p@.id("mv_comp"@),
            settings_infos(out@) =~= thumb_pads(f@, i as nat),
        decreases p.num_inputs - i,
    {
        let placement = Placement {
            rect: layout::thumbnail_pad_position(view, i),
            shown: true,
            zorder: z.mv_thumbnail as u64,
        };
        push(&mut out, make_video_pad(mv_comp.as_str(), i, placement));
        assert(settings_infos(out@) =~= thumb_pads(f@, (i + 1) as nat));
        i += 1;
    }
    let placement = Placement {
        rect: layout::pgm_pad_position(view),
        shown: true,
        zorder: z.mv_big_display as u64,
    };
    push(&mut out, make_video_pad(mv_comp.as_str(), p.num_inputs, placement));
    out
}

fn make_pvw_pads(
    p: &PipelineParams,
    start: &MixerStart,
    zones: &ZonePads,
    z: Zorders,
    view: &MultiviewLayout,
) -> (r: Vec<PadSettings>)
    requires
        p@.fits(),
        order_fits(p@, zones@, z),
    ensures
        settings_infos(r@) == pvw_pads(
            PadsFrom { p: p@, view: view@, start: start@, zones: zones@, z },
            p.num_inputs as nat,
        ),
{
    let ghost f = PadsFrom { p: p@, view: view@, start: start@, zones: zones@, z };
    let mv_comp = p.id("mv_comp");
    let mut out: Vec<PadSettings> = Vec::new();
    let mut i: usize = 0;
    while i < p.num_inputs
        invariant
            i <= p.num_inputs,
            p@.fits(),
            order_fits(p@, zones@, z),
            f == (PadsFrom { p: p@, view: view@, start: start@, zones: zones@, z }),
            mv_comp@ == p@.id("mv_comp"@),
            settings_infos(out@) =~= pvw_pads(f, i as nat),
        decreases p.num_inputs - i,
    {
        push(
            &mut out,
            make_video_pad(
                mv_comp.as_str(),
                p.num_inputs + 1 + i,
                place_on_pvw(view, start, zones, z, i),
            ),
        );
        assert(settings_infos(out@) =~= pvw_pads(f, (i + 1) as nat));
        i += 1;
    }
    out
}

fn make_tile_pads(
    p: &PipelineParams,
    start: &MixerStart,
    zones: &ZonePads,
    z: Zorders,
    view: &MultiviewLayout,
    pip: usize,
) -> (r: Vec<PadSettings>)
    requires
        p@.fits(),
        order_fits(p@, zones@, z),
        pip < p.num_pips,
    ensures
        settings_infos(r@) == tile_pads(
            PadsFrom { p: p@, view: view@, start: start@, zones: zones@, z },
            pip as int,
            p.num_inputs as nat,
        ),
{
    let ghost f = PadsFrom { p: p@, view: view@, start: start@, zones: zones@, z };
    let mv_comp = p.id("mv_comp");
    let mut out: Vec<PadSettings> = Vec::new();
    let mut i: usize = 0;
    while i < p.num_inputs
        invariant
            i <= p.num_inputs,
            p@.fits(),
            order_fits(p@, zones@, z),
            pip < p.num_pips,
            f == (PadsFrom { p: p@, view: view@, start: start@, zones: zones@, z }),
            mv_comp@ == p@.id("mv_comp"@),
            settings_infos(out@) =~= tile_pads(f, pip as int, i as nat),
        decreases p.num_inputs - i,
    {
        push(
            &mut out,
            make_video_pad(
                mv_comp.as_str(),
                params::pip_pad_index(p.num_inputs, p.num_pips, pip, i),
                place_in_tile(view, start, zones, z, pip, i),
            ),
        );
        assert(settings_infos(out@) =~= tile_pads(f, pip as int, (i + 1) as nat));
        i += 1;
    }
    out
}

/// How all pads of the compositors are set when the mixer starts.
pub fn build_pad_properties(
    p: &PipelineParams,
    view: &MultiviewLayout,
    start: &MixerStart,
    zones: &ZonePads,
    z: Zorders,
) -> (r: Vec<PadSettings>)
    requires
        p@.fits(),
        order_fits(p@, zones@, z),
    ensures
        settings_infos(r@) == all_pads(
            PadsFrom { p: p@, view: view@, start: start@, zones: zones@, z },
        ),
{
    let ghost f = PadsFrom { p: p@, view: view@, start: start@, zones: zones@, z };
    let mut out = make_dist_pads(p, start, zones, z, view);
    append(&mut out, make_dsk_pads(p, z, Ghost(f)));
    append(&mut out, make_thumb_pads(p, z, view, Ghost(f)));
    append(&mut out, make_pvw_pads(p, start, zones, z, view));
    let ghost head = settings_infos(out@);
    let mut pip: usize = 0;
    assert(head =~= head + tiles_pads(f, 0));
    while pip < p.num_pips
        invariant
            pip <= p.num_pips,
            p@.fits(),
            order_fits(p@, zones@, z),
            f == (PadsFrom { p: p@, view: view@, start: start@, zones: zones@, z }),
            settings_infos(out@) == head + tiles_pads(f, pip as nat),
        decreases p.num_pips - pip,
    {
        append(&mut out, make_tile_pads(p, start, zones, z, view, pip));
        assert(settings_infos(out@) =~= head + tiles_pads(f, (pip + 1) as nat));
        pip += 1;
    }
    push(&mut out, make_overlay_settings(p, z));
    assert(settings_infos(out@) =~= all_pads(f));
    out
}

// ---------------------------------------------------------------------------
// Laws
// ---------------------------------------------------------------------------

proof fn lemma_tiles_pads(f: PadsFrom, n: nat)
    ensures
        tiles_pads(f, n).len() == n * f.p.inputs,
        forall|k: int|
            0 <= k < n * f.p.inputs ==> (#[trigger] tiles_pads(f, n)[k]).element == f.p.id(
                "mv_comp"@,
            ) && tiles_pads(f, n)[k].pad == plan::numbered("sink_"@, 2 * f.p.inputs + 1 + k),
    decreases n,
{
    if n > 0 {
        lemma_tiles_pads(f, (n - 1) as nat);
        assert(n * f.p.inputs == (n - 1) * f.p.inputs + f.p.inputs) by (nonlinear_arith);
        let before = tiles_pads(f, (n - 1) as nat);
        let row = tile_pads(f, n - 1, f.p.inputs);
        assert forall|k: int| 0 <= k < n * f.p.inputs implies (
        #[trigger] tiles_pads(f, n)[k]).element == f.p.id("mv_comp"@) && tiles_pads(f, n)[k].pad
            == plan::numbered("sink_"@, 2 * f.p.inputs + 1 + k) by {
            if k < before.len() {
                assert(tiles_pads(f, n)[k] == before[k]);
            } else {
                assert(tiles_pads(f, n)[k] == row[k - before.len()]);
            }
        }
    } else {
        assert(0 * f.p.inputs == 0) by (nonlinear_arith);
    }
}

/// Every pad of both compositors is set, each once and in the order of their
/// numbers: first those of the programme compositor, then those of the
/// multiview compositor.
pub proof fn every_pad_is_set_once(f: PadsFrom)
    ensures
        all_pads(f).len() == f.p.inputs + f.p.dsks + params::overlay_pad(f.p.inputs, f.p.pips) + 1,
        forall|k: int|
            0 <= k < f.p.inputs + f.p.dsks ==> (#[trigger] all_pads(f)[k]).element == f.p.id(
                "mixer"@,
            ) && all_pads(f)[k].pad == plan::numbered("sink_"@, k),
        forall|k: int|
            f.p.inputs + f.p.dsks <= k < all_pads(f).len() ==> (
            #[trigger] all_pads(f)[k]).element == f.p.id("mv_comp"@) && all_pads(f)[k].pad
                == plan::numbered("sink_"@, k - f.p.inputs - f.p.dsks),
{
    let n = f.p.inputs as int;
    let d = f.p.dsks as int;
    let dist = dist_pads(f, f.p.inputs);
    let dsk = dsk_pads(f, f.p.dsks);
    let thumbs = thumb_pads(f, f.p.inputs).push(pgm_settings(f));
    let pvw = pvw_pads(f, f.p.inputs);
    let tiles = tiles_pads(f, f.p.pips).push(overlay_settings(f.p, f.z));
    let all = all_pads(f);
    lemma_tiles_pads(f, f.p.pips);
    assert(all == dist + dsk + thumbs + pvw + tiles);
    assert forall|k: int| n + d <= k < all.len() implies (#[trigger] all[k]).element == f.p.id(
        "mv_comp"@,
    ) && all[k].pad == plan::numbered("sink_"@, k - n - d) by {
        if k < n + d + n + 1 {
            assert(all[k] == thumbs[k - n - d]);
        } else if k < n + d + n + 1 + n {
            assert(all[k] == pvw[k - n - d - n - 1]);
        } else {
            assert(all[k] == tiles[k - n - d - n - 1 - n]);
        }
    }
    assert forall|k: int| 0 <= k < n + d implies (#[trigger] all[k]).element == f.p.id("mixer"@)
        && all[k].pad == plan::numbered("sink_"@, k) by {
        if k < n {
            assert(all[k] == dist[k]);
        } else {
            assert(all[k] == dsk[k - n]);
        }
    }
}

/// Where one input is on programme, it is shown there and no other is.
pub proof fn one_input_is_on_programme(f: PadsFrom, active: usize, i: int)
    requires
        f.start.pgm_source == Source::Input(active),
        0 <= i < f.p.inputs,
    ensures
        dist_placement(f.p, f.start, f.zones, f.z, i).shown == (i == active),
        dist_placement(f.p, f.start, f.zones, f.z, i).rect == canvas(f.p),
{
}

} // verus!
