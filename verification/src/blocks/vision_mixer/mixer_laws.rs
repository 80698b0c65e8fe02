//! Laws on what the mixer shows of itself: its pads, the capabilities of its
//! outputs, its meters, and the borders that it draws.

use crate::blocks::contents;
use crate::blocks::definition::MediaType;
use crate::blocks::plan::{CapsFieldInfo, Recipe};
use crate::blocks::vision_mixer::builder;
use crate::blocks::vision_mixer::builder::Meter;
use crate::blocks::vision_mixer::cpu;
use crate::blocks::vision_mixer::geometry;
use crate::blocks::vision_mixer::geometry::Compositor;
use crate::blocks::vision_mixer::gpu;
use crate::blocks::vision_mixer::layout;
use crate::blocks::vision_mixer::layout::Rect;
use crate::blocks::vision_mixer::links;
use crate::blocks::vision_mixer::pads::Source;
use crate::blocks::vision_mixer::params;
use crate::blocks::vision_mixer::params::{CompositorBackend, PipelineInfo};
use crate::blocks::vision_mixer::pgm_overlay;
use crate::blocks::vision_mixer::pgm_overlay::{
    BorderDraw, BorderStyle, PadGeometry, Rgba, ZoneBorderInfo,
};
use crate::sequences;
use crate::text;
use vstd::arithmetic::div_mod::lemma_mod_multiples_vanish;
use vstd::arithmetic::div_mod::lemma_mul_mod_noop_left;
use vstd::arithmetic::div_mod::lemma_small_mod;
use vstd::prelude::*;

verus! {

// ---------------------------------------------------------------------------
// Pads and outputs
// ---------------------------------------------------------------------------

/// The mixer has a pad for the picture and one for the sound of every input, one
/// for every key, one for the sound of programme, and two outputs. Each leads to
/// the queue that is there for it.
pub proof fn mixer_pads_lead_to_their_queues(inputs: nat, dsks: nat, i: int)
    ensures
        ({
            let all = builder::mixer_pads(inputs, dsks);
            let number = text::decimal(i as nat);
            &&& all.inputs.len() == 2 * inputs + dsks + 1
            &&& all.outputs.len() == 2
            &&& 0 <= i < inputs ==> all.inputs[i].name == "video_in_"@ + number
                && all.inputs[i].label == Some("V"@ + number) && all.inputs[i].media_type
                == MediaType::Video && all.inputs[i].internal_element_id == "queue_"@ + number
                && all.inputs[i].internal_pad_name == "sink"@
            &&& 0 <= i < dsks ==> all.inputs[inputs + i].name == "dsk_in_"@ + number
                && all.inputs[inputs + i].label == Some("DSK"@ + text::decimal((i + 1) as nat))
                && all.inputs[inputs + i].media_type == MediaType::Video && all.inputs[inputs
                + i].internal_element_id == "queue_dsk_"@ + number && all.inputs[inputs
                + i].internal_pad_name == "sink"@
            &&& 0 <= i < inputs ==> all.inputs[inputs + dsks + i].name == "audio_in_"@ + number
                && all.inputs[inputs + dsks + i].label == Some("A"@ + number) && all.inputs[inputs
                + dsks + i].media_type == MediaType::Audio && all.inputs[inputs + dsks
                + i].internal_element_id == "queue_audio_"@ + number && all.inputs[inputs + dsks
                + i].internal_pad_name == "sink"@
            &&& contents::shows(
                all.inputs,
                "pgm_audio_in"@,
                MediaType::Audio,
                "queue_audio_pgm"@,
                "sink"@,
            )
            &&& contents::shows(
                all.outputs,
                "pgm_out"@,
                MediaType::Video,
                "queue_dist_out"@,
                "src"@,
            )
            &&& contents::shows(
                all.outputs,
                "multiview_out"@,
                MediaType::Video,
                "queue_mv_out"@,
                "src"@,
            )
        }),
{
    let all = builder::mixer_pads(inputs, dsks);
    assert(all.inputs[(2 * inputs + dsks) as int].name == "pgm_audio_in"@);
    assert(all.outputs[0].name == "pgm_out"@);
    assert(all.outputs[1].name == "multiview_out"@);
}

/// The mixer is built for what composes its pictures.
pub proof fn mixer_is_built_for_its_compositor(p: PipelineInfo)
    ensures
        p.backend == CompositorBackend::OpenGL ==> builder::mixer_plan(p) == gpu::gpu_plan(p),
        p.backend == CompositorBackend::Software ==> builder::mixer_plan(p)
            == cpu::plain_cpu_plan(p),
{
}

/// Each output has its own size and rate, with square pixels, and the format that
/// is asked for where one is.
pub proof fn outputs_have_their_own_size(p: PipelineInfo)
    ensures
        p.pgm_caps() == params::raw_caps(p.pgm_w, p.pgm_h, p.pgm_rate, p.format),
        p.mv_caps() == params::raw_caps(p.mv_w, p.mv_h, p.mv_rate, p.format),
{
}

/// Raw video of a size and rate.
pub proof fn raw_video_has_its_size(w: u32, h: u32, rate: (i32, i32), format: Option<Seq<char>>)
    ensures
        ({
            let caps = params::raw_caps(w, h, rate, format);
            &&& caps.media == "video/x-raw"@
            &&& contents::fixes(caps, "width"@, CapsFieldInfo::Int(w as i32))
            &&& contents::fixes(caps, "height"@, CapsFieldInfo::Int(h as i32))
            &&& contents::fixes(caps, "framerate"@, CapsFieldInfo::Fraction(rate.0, rate.1))
            &&& contents::fixes(caps, "pixel-aspect-ratio"@, CapsFieldInfo::Fraction(1, 1))
            &&& format matches Some(f) ==> contents::fixes(
                caps,
                "format"@,
                CapsFieldInfo::Text(f),
            )
            &&& caps.fields.len() == (if format is Some {
                5nat
            } else {
                4
            })
        }),
        forall|f: Seq<char>| #[trigger]
            params::format_caps(f).media == "video/x-raw"@ && contents::fixes(
                params::format_caps(f),
                "format"@,
                CapsFieldInfo::Text(f),
            ) && params::format_caps(f).fields.len() == 1,
{
    broadcast use contents::what_plans_hold;

}

/// What stays in graphics memory and what the mixer draws are written with the size
/// and rate of the output that they belong to.
pub proof fn texts_of_capabilities_hold_the_size(p: PipelineInfo)
    ensures
        p.pgm_caps_glmem() == written(
            "video/x-raw(memory:GLMemory),width="@,
            p.pgm_w,
            p.pgm_h,
            ",framerate="@,
            p.pgm_rate,
            ",pixel-aspect-ratio=1/1"@,
        ),
        p.mv_caps_glmem() == written(
            "video/x-raw(memory:GLMemory),width="@,
            p.mv_w,
            p.mv_h,
            ",framerate="@,
            p.mv_rate,
            ",pixel-aspect-ratio=1/1"@,
        ),
        p.pgm_overlay_caps() == written(
            "video/x-raw,format=RGBA,width="@,
            p.pgm_w,
            p.pgm_h,
            ",pixel-aspect-ratio=1/1,framerate="@,
            p.pgm_rate,
            ",interlace-mode=progressive,multiview-mode=mono"@,
        ),
        p.mv_overlay_caps() == written(
            "video/x-raw,format=RGBA,width="@,
            p.mv_w,
            p.mv_h,
            ",pixel-aspect-ratio=1/1,framerate="@,
            p.mv_rate,
            ",interlace-mode=progressive,multiview-mode=mono"@,
        ),
{
}

/// A size and a rate in a text.
pub open spec fn written(
    before: Seq<char>,
    w: u32,
    h: u32,
    between: Seq<char>,
    rate: (i32, i32),
    after: Seq<char>,
) -> Seq<char> {
    before + text::decimal(w as nat) + ",height="@ + text::decimal(h as nat) + between
        + text::decimal_int(rate.0 as int) + "/"@ + text::decimal_int(rate.1 as int) + after
}

/// Elements that this program makes itself are made by their own maker.
pub proof fn own_elements_have_their_makers(id: Seq<char>, p: PipelineInfo)
    ensures
        params::queue(id).recipe == Recipe::Queue,
        params::quiet_queue(id).recipe == Recipe::QuietQueue,
        params::tee(id).recipe == Recipe::Tee,
        cpu::leaky_queue(id).recipe == Recipe::QuietQueue,
        links::level(id).recipe == Recipe::Level,
        links::meter_sink(id).recipe == Recipe::MeterSink,
        params::compositors(p).elements.len() == 2,
        params::compositors(p).elements[0].recipe == Recipe::DistCompositor,
        params::compositors(p).elements[0].id == p.instance + ":"@ + "mixer"@,
        params::compositors(p).elements[1].recipe == Recipe::MultiviewCompositor,
        params::compositors(p).elements[1].id == p.instance + ":"@ + "mv_comp"@,
{
}

// ---------------------------------------------------------------------------
// Sources and meters
// ---------------------------------------------------------------------------

/// What is behind a tile stands for it at the start, where anything is; an input
/// is not stood for by another.
pub proof fn backgrounds_stand_for_tiles(
    source: Source,
    backgrounds: Seq<Option<usize>>,
    fallback: usize,
)
    ensures
        match source {
            Source::Input(_) => builder::standing_input(source, backgrounds, fallback) == fallback,
            Source::Pip(pip) => builder::standing_input(source, backgrounds, fallback) == (if pip
                < backgrounds.len() && backgrounds[pip as int] is Some {
                backgrounds[pip as int]->0
            } else {
                fallback
            }),
        },
{
}

/// A meter is known by the name that the mixer gives it, and an element of another
/// block or another name is none.
pub proof fn meters_are_known_by_name(instance: Seq<char>, i: nat, name: Seq<char>)
    ensures
        i <= usize::MAX ==> builder::meter_named(
            instance,
            instance + ":"@ + ("level_audio_"@ + text::decimal(i)),
        ) == Some(Meter::Input(i as usize)),
        builder::meter_named(instance, instance + ":"@ + "level_audio_pgm"@) == Some(Meter::Pgm),
        !text::has_prefix(name, instance + ":"@ + "level_audio_"@) ==> builder::meter_named(
            instance,
            name,
        ) is None,
{
    if i <= usize::MAX {
        builder::input_meter_is_known(instance, i);
    }
    reveal_strlit("level_audio_");
    reveal_strlit("level_audio_pgm");
    let prefix = instance + ":"@ + "level_audio_"@;
    let whole = instance + ":"@ + "level_audio_pgm"@;
    assert(whole.subrange(0, prefix.len() as int) =~= prefix);
}

/// A pad that is watched for the size of its input.
pub open spec fn is_watched(
    inputs: nat,
    pips: nat,
    n: nat,
    compositor: Compositor,
    pad: int,
) -> bool {
    geometry::watched_pads(inputs, pips, n).contains(
        (compositor, "sink_"@ + text::decimal(pad as nat)),
    )
}

/// Every pad that an input reaches is watched: on programme, its thumbnail, on
/// preview, and in every tile.
pub proof fn all_pads_of_inputs_are_watched(inputs: nat, pips: nat, n: nat, i: int, pip: int)
    requires
        0 <= i < n,
    ensures
        is_watched(inputs, pips, n, Compositor::Programme, i),
        is_watched(inputs, pips, n, Compositor::Multiview, i),
        is_watched(inputs, pips, n, Compositor::Multiview, inputs + 1 + i),
        0 <= pip < pips ==> is_watched(
            inputs,
            pips,
            n,
            Compositor::Multiview,
            2 * inputs + 1 + pip * inputs + i,
        ),
        geometry::watched_pads(inputs, pips, n).len() == n * (3 + pips),
    decreases n,
{
    let m = (n - 1) as nat;
    let before = geometry::watched_pads(inputs, pips, m);
    let more = geometry::watched_for(inputs, pips, m as int);
    let all = geometry::watched_pads(inputs, pips, n);
    lemma_watched_len(inputs, pips, n);
    if i < m {
        all_pads_of_inputs_are_watched(inputs, pips, m, i, pip);
        assert forall|x: (Compositor, Seq<char>)| before.contains(x) implies all.contains(x) by {
            let k = choose|k: int| 0 <= k < before.len() && before[k] == x;
            assert(all[k] == x);
        }
    } else {
        assert(all[before.len() as int] == more[0]);
        assert(all[before.len() as int + 1] == more[1]);
        assert(all[before.len() as int + 2] == more[2]);
        if 0 <= pip < pips {
            assert(all[before.len() + 3 + pip] == more[3 + pip]);
        }
    }
}

proof fn lemma_watched_len(inputs: nat, pips: nat, n: nat)
    ensures
        geometry::watched_pads(inputs, pips, n).len() == n * (3 + pips),
    decreases n,
{
    if n > 0 {
        lemma_watched_len(inputs, pips, (n - 1) as nat);
        assert((n - 1) * (3 + pips) + (3 + pips) == n * (3 + pips)) by (nonlinear_arith)
            requires
                n > 0,
        ;
    } else {
        assert(0 * (3 + pips) == 0) by (nonlinear_arith);
    }
}

// ---------------------------------------------------------------------------
// Borders
// ---------------------------------------------------------------------------

/// A picture that has not faded has a border just where it stands, as opaque as
/// it is; one that has, or that has no pad, has none.
pub proof fn borders_stand_where_pictures_do(
    input: usize,
    width: u64,
    rgba: Rgba,
    pads: Seq<Option<PadGeometry>>,
)
    ensures
        pgm_overlay::border_of(input, width, rgba, pads) is Some <==> input < pads.len()
            && pads[input as int] is Some && !pads[input as int]->0.faded,
        pgm_overlay::border_of(input, width, rgba, pads) matches Some(b) ==> ({
            let pad = pads[input as int]->0;
            &&& b.x == pad.x
            &&& b.y == pad.y
            &&& b.w == pad.w
            &&& b.h == pad.h
            &&& b.pad_alpha == pad.alpha
            &&& b.width == width
            &&& b.rgba == rgba
        }),
{
}

proof fn lemma_zone_in_all(
    zones: Seq<ZoneBorderInfo>,
    pads: Seq<Option<PadGeometry>>,
    k: int,
    b: BorderDraw,
)
    requires
        0 <= k < zones.len(),
        pgm_overlay::borders_of_zone(zones[k], pads).contains(b),
    ensures
        pgm_overlay::borders_of(zones, pads).contains(b),
    decreases zones.len(),
{
    let before = pgm_overlay::borders_of(zones.drop_last(), pads);
    let last = pgm_overlay::borders_of_zone(zones.last(), pads);
    let all = pgm_overlay::borders_of(zones, pads);
    if k == zones.len() - 1 {
        let j = choose|j: int| 0 <= j < last.len() && last[j] == b;
        assert(all[before.len() + j] == b);
    } else {
        assert(zones.drop_last()[k] == zones[k]);
        lemma_zone_in_all(zones.drop_last(), pads, k, b);
        let j = choose|j: int| 0 <= j < before.len() && before[j] == b;
        assert(all[j] == b);
    }
}

/// Every picture in a zone whose border can be seen has its border drawn, in the
/// width and colour of the zone.
pub proof fn visible_borders_are_drawn(
    zones: Seq<ZoneBorderInfo>,
    pads: Seq<Option<PadGeometry>>,
    k: int,
    j: int,
    style: BorderStyle,
    rgba: Rgba,
)
    requires
        0 <= k < zones.len(),
        0 <= j < zones[k].sources.len(),
        zones[k].style == Some(style),
        style.visible,
        style.rgba == Some(rgba),
        pgm_overlay::border_of(zones[k].sources[j], style.width, rgba, pads) is Some,
    ensures
        pgm_overlay::borders_of(zones, pads).contains(
            pgm_overlay::border_of(zones[k].sources[j], style.width, rgba, pads)->0,
        ),
{
    let sources = zones[k].sources;
    let pick = |input: usize| pgm_overlay::border_of(input, style.width, rgba, pads);
    sequences::lemma_filter_map_holds(sources, pick, j, sources.len() as int);
    assert(sources.take(sources.len() as int) =~= sources);
    lemma_zone_in_all(zones, pads, k, pick(sources[j])->0);
}

/// A zone without a border, with one that is hidden, or with one whose colour
/// cannot be read draws none.
pub proof fn hidden_borders_are_not_drawn(zone: ZoneBorderInfo, pads: Seq<Option<PadGeometry>>)
    requires
        zone.style matches Some(style) ==> !style.visible || style.rgba is None,
    ensures
        pgm_overlay::borders_of_zone(zone, pads).len() == 0,
{
}

proof fn lemma_times_odd(v: u64, w: u64)
    requires
        v.wrapping_mul(0x100000001B3) == w.wrapping_mul(0x100000001B3),
    ensures
        v == w,
{
    let m = 0x1_0000_0000_0000_0000int;
    let k = 0x100000001B3int;
    let inverse = 14886173955864302971int;
    assert(v.wrapping_mul(0x100000001B3) == (v * k) % m);
    assert(w.wrapping_mul(0x100000001B3) == (w * k) % m);
    lemma_undone(v as int, k, inverse, m);
    lemma_undone(w as int, k, inverse, m);
}

proof fn lemma_undone(v: int, k: int, inverse: int, m: int)
    requires
        m == 0x1_0000_0000_0000_0000int,
        k == 0x100000001B3int,
        inverse == 14886173955864302971int,
        0 <= v < m,
    ensures
        (((v * k) % m) * inverse) % m == v,
{
    lemma_mul_mod_noop_left(v * k, inverse, m);
    let times = (k * inverse - 1) / m;
    assert(k * inverse == m * times + 1) by (nonlinear_arith)
        requires
            m == 0x1_0000_0000_0000_0000int,
            k == 0x100000001B3int,
            inverse == 14886173955864302971int,
            times == (k * inverse - 1) / m,
    ;
    assert((v * k) * inverse == m * (times * v) + v) by (nonlinear_arith)
        requires
            k * inverse == m * times + 1,
    ;
    lemma_mod_multiples_vanish(times * v, v, m);
    lemma_small_mod(v as nat, m as nat);
}

proof fn lemma_mixed_differs(h: u64, g: u64, v: u64, w: u64)
    ensures
        pgm_overlay::mixed(h, v) == pgm_overlay::mixed(h, w) ==> v == w,
        pgm_overlay::mixed(h, v) == pgm_overlay::mixed(g, v) ==> h == g,
{
    let a = v.wrapping_mul(0x100000001B3);
    let b = w.wrapping_mul(0x100000001B3);
    assert((((h << 13u64) | (h >> 51u64)) ^ a) == (((h << 13u64) | (h >> 51u64)) ^ b) ==> a == b)
        by (bit_vector);
    assert((((h << 13u64) | (h >> 51u64)) ^ a) == (((g << 13u64) | (g >> 51u64)) ^ a) ==> h == g)
        by (bit_vector);
    if a == b {
        lemma_times_odd(v, w);
    }
}

/// A border that differs from another in one number makes another hash, and so do
/// two borders after different hashes: a change of one number is always seen.
pub proof fn one_changed_number_changes_the_hash(h: u64, g: u64, b: BorderDraw, c: BorderDraw)
    requires
        pgm_overlay::mixed_border(h, b) == pgm_overlay::mixed_border(g, c),
    ensures
        b == c ==> h == g,
        h == g && c == (BorderDraw { x: c.x, ..b }) ==> b == c,
        h == g && c == (BorderDraw { y: c.y, ..b }) ==> b == c,
        h == g && c == (BorderDraw { w: c.w, ..b }) ==> b == c,
        h == g && c == (BorderDraw { h: c.h, ..b }) ==> b == c,
        h == g && c == (BorderDraw { width: c.width, ..b }) ==> b == c,
        h == g && c == (BorderDraw { rgba: Rgba { r: c.rgba.r, ..b.rgba }, ..b }) ==> b == c,
        h == g && c == (BorderDraw { rgba: Rgba { g: c.rgba.g, ..b.rgba }, ..b }) ==> b == c,
        h == g && c == (BorderDraw { rgba: Rgba { b: c.rgba.b, ..b.rgba }, ..b }) ==> b == c,
        h == g && c == (BorderDraw { rgba: Rgba { a: c.rgba.a, ..b.rgba }, ..b }) ==> b == c,
        h == g && c == (BorderDraw { pad_alpha: c.pad_alpha, ..b }) ==> b == c,
{
    let b1 = pgm_overlay::mixed(h, b.x);
    let c1 = pgm_overlay::mixed(g, c.x);
    let b2 = pgm_overlay::mixed(b1, b.y);
    let c2 = pgm_overlay::mixed(c1, c.y);
    let b3 = pgm_overlay::mixed(b2, b.w);
    let c3 = pgm_overlay::mixed(c2, c.w);
    let b4 = pgm_overlay::mixed(b3, b.h);
    let c4 = pgm_overlay::mixed(c3, c.h);
    let b5 = pgm_overlay::mixed(b4, b.width);
    let c5 = pgm_overlay::mixed(c4, c.width);
    let b6 = pgm_overlay::mixed(b5, b.rgba.r);
    let c6 = pgm_overlay::mixed(c5, c.rgba.r);
    let b7 = pgm_overlay::mixed(b6, b.rgba.g);
    let c7 = pgm_overlay::mixed(c6, c.rgba.g);
    let b8 = pgm_overlay::mixed(b7, b.rgba.b);
    let c8 = pgm_overlay::mixed(c7, c.rgba.b);
    let b9 = pgm_overlay::mixed(b8, b.rgba.a);
    let c9 = pgm_overlay::mixed(c8, c.rgba.a);
    lemma_mixed_differs(b9, c9, b.pad_alpha, c.pad_alpha);
    lemma_mixed_differs(b8, c8, b.rgba.a, c.rgba.a);
    lemma_mixed_differs(b7, c7, b.rgba.b, c.rgba.b);
    lemma_mixed_differs(b6, c6, b.rgba.g, c.rgba.g);
    lemma_mixed_differs(b5, c5, b.rgba.r, c.rgba.r);
    lemma_mixed_differs(b4, c4, b.width, c.width);
    lemma_mixed_differs(b3, c3, b.h, c.h);
    lemma_mixed_differs(b2, c2, b.w, c.w);
    lemma_mixed_differs(b1, c1, b.y, c.y);
    lemma_mixed_differs(h, g, b.x, c.x);
}

/// Packed rows hold the pixels of every row one behind the other: what stands at a
/// place of a row stands at that place of the row in the packed form.
pub proof fn packed_rows_hold_the_pixels(
    data: Seq<u8>,
    row: nat,
    stride: nat,
    rows: nat,
    y: int,
    x: int,
)
    requires
        row <= stride,
        rows * stride <= data.len(),
        0 <= y < rows,
        0 <= x < row,
    ensures
        pgm_overlay::packed(data, row, stride, rows).len() == rows * row,
        0 <= y * row + x < rows * row,
        pgm_overlay::packed(data, row, stride, rows)[y * row + x] == data[y * stride + x],
    decreases rows,
{
    let start = (rows - 1) * stride;
    assert(start + stride == rows * stride && 0 <= start && (rows - 1) * row + row == rows * row && 0
        <= (rows - 1) * row) by (nonlinear_arith)
        requires
            start == (rows - 1) * stride,
            rows > 0,
            0 <= stride,
            0 <= row,
    ;
    lemma_packed_len(data, row, stride, (rows - 1) as nat);
    let before = pgm_overlay::packed(data, row, stride, (rows - 1) as nat);
    let last = data.subrange(start, start + row);
    let all = pgm_overlay::packed(data, row, stride, rows);
    if y == rows - 1 {
        assert(all[before.len() + x] == last[x]);
    } else {
        packed_rows_hold_the_pixels(data, row, stride, (rows - 1) as nat, y, x);
        assert(all[y * row + x] == before[y * row + x]);
    }
}

proof fn lemma_packed_len(data: Seq<u8>, row: nat, stride: nat, rows: nat)
    requires
        row <= stride,
        rows * stride <= data.len(),
    ensures
        pgm_overlay::packed(data, row, stride, rows).len() == rows * row,
    decreases rows,
{
    if rows > 0 {
        let start = (rows - 1) * stride;
        assert(start + stride == rows * stride && 0 <= start && (rows - 1) * row + row == rows
            * row) by (nonlinear_arith)
            requires
                start == (rows - 1) * stride,
                rows > 0,
                0 <= stride,
        ;
        lemma_packed_len(data, row, stride, (rows - 1) as nat);
    } else {
        assert(0 * row == 0) by (nonlinear_arith);
    }
}

/// A frame is due one interval after the last, and is waited for until then. One
/// that is late is not waited for, and one that is late by more than an interval
/// is due at once.
pub proof fn frames_are_due_one_interval_apart(due: int, now: int, interval: int)
    requires
        interval >= 0,
    ensures
        now < due + interval ==> pgm_overlay::paced(due, now, interval) == (
            due + interval,
            due + interval - now,
        ),
        due + interval <= now <= due + 2 * interval ==> pgm_overlay::paced(due, now, interval) == (
            due + interval,
            0int,
        ),
        now > due + 2 * interval ==> pgm_overlay::paced(due, now, interval) == (now, 0int),
{
}

/// Slots run along the rows: the first is in the corner, and each next one is in
/// the next column, or in the first of the next row.
pub proof fn slots_run_along_the_rows(slot: int, columns: int)
    requires
        0 <= slot,
        columns > 0,
    ensures
        layout::cell_of(0, columns) == (0int, 0int),
        ({
            let here = layout::cell_of(slot, columns);
            let next = layout::cell_of(slot + 1, columns);
            &&& here.0 + 1 < columns ==> next == (here.0 + 1, here.1)
            &&& here.0 + 1 == columns ==> next == (0int, here.1 + 1)
            &&& 0 <= here.0 < columns
        }),
{
    let (q, r) = (slot / columns, slot % columns);
    assert(slot == q * columns + r && 0 <= r < columns) by (nonlinear_arith)
        requires
            columns > 0,
            q == slot / columns,
            r == slot % columns,
    ;
    vstd::arithmetic::div_mod::lemma_small_mod(0, columns as nat);
    vstd::arithmetic::div_mod::lemma_basic_div(0, columns);
    if r + 1 < columns {
        vstd::arithmetic::div_mod::lemma_fundamental_div_mod_converse(
            slot + 1,
            columns,
            q,
            r + 1,
        );
    } else {
        assert(slot + 1 == (q + 1) * columns) by (nonlinear_arith)
            requires
                slot == q * columns + r,
                r + 1 == columns,
        ;
        vstd::arithmetic::div_mod::lemma_fundamental_div_mod_converse(slot + 1, columns, q + 1, 0);
    }
}

/// A picture that has no place stands in the corner, one point in size; one that
/// has a place stands there.
pub proof fn pictures_without_a_place_are_out_of_sight(rects: Seq<Rect>, i: int)
    ensures
        0 <= i < rects.len() ==> layout::rect_at(rects, i) == rects[i],
        !(0 <= i < rects.len()) ==> ({
            let r = layout::rect_at(rects, i);
            r.x == 0 && r.y == 0 && r.w == 1 && r.h == 1
        }),
{
}

/// The two borders differ in one number at most.
pub open spec fn is_one_number_apart(b: BorderDraw, c: BorderDraw) -> bool {
    ||| c == (BorderDraw { x: c.x, ..b })
    ||| c == (BorderDraw { y: c.y, ..b })
    ||| c == (BorderDraw { w: c.w, ..b })
    ||| c == (BorderDraw { h: c.h, ..b })
    ||| c == (BorderDraw { width: c.width, ..b })
    ||| c == (BorderDraw { rgba: Rgba { r: c.rgba.r, ..b.rgba }, ..b })
    ||| c == (BorderDraw { rgba: Rgba { g: c.rgba.g, ..b.rgba }, ..b })
    ||| c == (BorderDraw { rgba: Rgba { b: c.rgba.b, ..b.rgba }, ..b })
    ||| c == (BorderDraw { rgba: Rgba { a: c.rgba.a, ..b.rgba }, ..b })
    ||| c == (BorderDraw { pad_alpha: c.pad_alpha, ..b })
}

/// Whichever of the borders changes in one number, the hash of all changes.
pub proof fn one_changed_border_changes_the_hash(borders: Seq<BorderDraw>, k: int, c: BorderDraw)
    requires
        0 <= k < borders.len(),
        c != borders[k],
        is_one_number_apart(borders[k], c),
    ensures
        pgm_overlay::border_hash(borders.update(k, c)) != pgm_overlay::border_hash(borders),
    decreases borders.len(),
{
    let changed = borders.update(k, c);
    let init = borders.drop_last();
    let h = pgm_overlay::border_hash(init);
    let g = pgm_overlay::border_hash(changed.drop_last());
    if k == borders.len() - 1 {
        assert(changed.drop_last() =~= init);
    } else {
        one_changed_border_changes_the_hash(init, k, c);
        assert(changed.drop_last() =~= init.update(k, c));
    }
    if pgm_overlay::border_hash(changed) == pgm_overlay::border_hash(borders) {
        one_changed_number_changes_the_hash(h, g, borders.last(), changed.last());
    }
}

/// The grid is no larger than the slots need: from five columns to seven, one row
/// for five slots and two for fourteen, never a row more than seven columns need,
/// and never a column more than those rows need.
pub proof fn grid_is_no_larger_than_needed(n: int)
    ensures
        n <= 0 ==> layout::grid_for(n) == (1int, 1int),
        n > 0 ==> 5 <= layout::grid_for(n).0 <= 7,
        0 < n <= 5 ==> layout::grid_for(n).1 == 1,
        5 < n <= 14 ==> layout::grid_for(n).1 == 2,
        n > 14 ==> 7 * (layout::grid_for(n).1 - 1) < n <= 7 * layout::grid_for(n).1,
        n > 0 && layout::grid_for(n).0 > 5 ==> (layout::grid_for(n).0 - 1) * layout::grid_for(n).1
            < n,
{
    let (columns, rows) = layout::grid_for(n);
    if n > 5 && columns > 5 {
        assert((columns - 1) * rows < n) by (nonlinear_arith)
            requires
                columns == 6 && 5 * rows < n || columns == 7 && 6 * rows < n,
        ;
    }
}

} // verus!
