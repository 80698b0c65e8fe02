//! Borders that the mixer draws around the pictures in zones on programme.
//!
//! The pictures move while a transition runs, so where they stand is read from
//! the pads for every frame, and a frame is drawn only when something changed.
//! Fractional numbers are held as the bits of their double-precision form.

use vstd::prelude::*;

verus! {

/// How far ahead of the moment the pads are read, so that a border lands where
/// its picture will be when the frame is composed.
pub const BORDER_LEAD_MS: u64 = 66;

/// The colour of a border: red, green, blue and opacity.
#[derive(Clone, Copy, Debug, PartialEq, Eq, Structural)]
pub struct Rgba {
    pub r: u64,
    pub g: u64,
    pub b: u64,
    pub a: u64,
}

/// How the border of a zone looks.
#[derive(Clone, Copy, Debug, PartialEq, Eq, Structural)]
pub struct BorderStyle {
    pub visible: bool,
    /// Missing where the colour cannot be read.
    pub rgba: Option<Rgba>,
    pub width: u64,
}

/// A zone, with the inputs that are shown in it.
pub struct ZoneBorder {
    pub style: Option<BorderStyle>,
    pub sources: Vec<usize>,
}

pub struct ZoneBorderInfo {
    pub style: Option<BorderStyle>,
    pub sources: Seq<usize>,
}

impl View for ZoneBorder {
    type V = ZoneBorderInfo;

    open spec fn view(&self) -> ZoneBorderInfo {
        ZoneBorderInfo { style: self.style, sources: self.sources@ }
    }
}

/// Where the picture of an input stands.
#[derive(Clone, Copy, Debug, PartialEq, Eq, Structural)]
pub struct PadGeometry {
    pub x: u64,
    pub y: u64,
    pub w: u64,
    pub h: u64,
    pub alpha: u64,
    /// Its opacity is at most one in a hundred.
    pub faded: bool,
}

/// A border to draw.
#[derive(Clone, Copy, Debug, PartialEq, Eq, Structural)]
pub struct BorderDraw {
    pub x: u64,
    pub y: u64,
    pub w: u64,
    pub h: u64,
    pub width: u64,
    pub rgba: Rgba,
    pub pad_alpha: u64,
}

// ---------------------------------------------------------------------------
// Which borders
// ---------------------------------------------------------------------------

/// The border around an input: none where the input has no pad or has faded.
pub open spec fn border_of(
    input: usize,
    width: u64,
    rgba: Rgba,
    pads: Seq<Option<PadGeometry>>,
) -> Option<BorderDraw> {
    if input < pads.len() {
        match pads[input as int] {
            Some(pad) => if pad.faded {
                None
            } else {
                Some(
                    BorderDraw {
                        x: pad.x,
                        y: pad.y,
                        w: pad.w,
                        h: pad.h,
                        width,
                        rgba,
                        pad_alpha: pad.alpha,
                    },
                )
            },
            None => None,
        }
    } else {
        None
    }
}

/// The borders of a zone: none where it has none, or one that cannot be seen.
pub open spec fn borders_of_zone(
    zone: ZoneBorderInfo,
    pads: Seq<Option<PadGeometry>>,
) -> Seq<BorderDraw> {
    match zone.style {
        Some(style) => match style.rgba {
            Some(rgba) => if style.visible {
                zone.sources.filter_map(
                    |input: usize| border_of(input, style.width, rgba, pads),
                )
            } else {
                Seq::empty()
            },
            None => Seq::empty(),
        },
        None => Seq::empty(),
    }
}

/// The borders of all zones.
pub open spec fn borders_of(
    zones: Seq<ZoneBorderInfo>,
    pads: Seq<Option<PadGeometry>>,
) -> Seq<BorderDraw>
    decreases zones.len(),
{
    if zones.len() == 0 {
        Seq::empty()
    } else {
        borders_of(zones.drop_last(), pads) + borders_of_zone(zones.last(), pads)
    }
}

pub open spec fn zone_infos(v: Seq<ZoneBorder>) -> Seq<ZoneBorderInfo> {
    v.map_values(|z: ZoneBorder| z@)
}

fn find_border(input: usize, width: u64, rgba: Rgba, pads: &Vec<Option<PadGeometry>>) -> (r:
    Option<BorderDraw>)
    ensures
        r == border_of(input, width, rgba, pads@),
{
    if input >= pads.len() {
        return None;
    }
    match pads[input] {
        Some(pad) => if pad.faded {
            None
        } else {
            Some(
                BorderDraw {
                    x: pad.x,
                    y: pad.y,
                    w: pad.w,
                    h: pad.h,
                    width,
                    rgba,
                    pad_alpha: pad.alpha,
                },
            )
        },
        None => None,
    }
}

fn zone_borders(sources: &Vec<usize>, width: u64, rgba: Rgba, pads: &Vec<Option<PadGeometry>>) -> (r:
    Vec<BorderDraw>)
    ensures
        r@ == sources@.filter_map(|input: usize| border_of(input, width, rgba, pads@)),
{
    let ghost pick = |input: usize| border_of(input, width, rgba, pads@);
    let mut out: Vec<BorderDraw> = Vec::new();
    let mut i: usize = 0;
    proof {
        reveal(Seq::filter_map);
        assert(sources@.take(0).filter_map(pick) =~= Seq::<BorderDraw>::empty());
    }
    while i < sources.len()
        invariant
            i <= sources.len(),
            pick == (|input: usize| border_of(input, width, rgba, pads@)),
            out@ == sources@.take(i as int).filter_map(pick),
        decreases sources.len() - i,
    {
        let ghost before = out@;
        proof {
            sources@.lemma_filter_map_take_succ(pick, i as int);
        }
        match find_border(sources[i], width, rgba, pads) {
            Some(border) => {
                out.push(border);
                assert(out@ =~= before.push(border));
            },
            None => {
                assert(before =~= before + Seq::<BorderDraw>::empty());
            },
        }
        i += 1;
    }
    assert(sources@.take(sources@.len() as int) =~= sources@);
    out
}

/// The borders to draw, given the zones on programme and where the picture of
/// each input stands.
pub fn collect_borders(zones: &Vec<ZoneBorder>, pads: &Vec<Option<PadGeometry>>) -> (r: Vec<
    BorderDraw,
>)
    ensures
        r@ == borders_of(zone_infos(zones@), pads@),
{
    let ghost all = zone_infos(zones@);
    let mut out: Vec<BorderDraw> = Vec::new();
    let mut i: usize = 0;
    while i < zones.len()
        invariant
            i <= zones.len(),
            all == zone_infos(zones@),
            all.len() == zones.len(),
            out@ == borders_of(all.take(i as int), pads@),
        decreases zones.len() - i,
    {
        let ghost before = out@;
        proof {
            assert(all.take(i + 1).drop_last() =~= all.take(i as int));
            assert(all[i as int] == zones@[i as int]@);
        }
        if let Some(style) = zones[i].style {
            if let Some(rgba) = style.rgba {
                if style.visible {
                    let mut more = zone_borders(&zones[i].sources, style.width, rgba, pads);
                    out.append(&mut more);
                }
            }
        }
        assert(out@ =~= before + borders_of_zone(all[i as int], pads@));
        i += 1;
    }
    assert(all.take(all.len() as int) =~= all);
    out
}

/// A picture that has faded has no border.
pub proof fn faded_picture_has_no_border(
    sources: Seq<usize>,
    style: BorderStyle,
    pads: Seq<Option<PadGeometry>>,
    input: usize,
)
    requires
        sources == seq![input],
        input < pads.len(),
        pads[input as int] matches Some(pad) && pad.faded,
    ensures
        borders_of_zone(ZoneBorderInfo { style: Some(style), sources }, pads).len() == 0,
{
    if let Some(rgba) = style.rgba {
        if style.visible {
            let pick = |i: usize| border_of(i, style.width, rgba, pads);
            reveal(Seq::filter_map);
            sources.lemma_filter_map_take_succ(pick, 0);
            assert(sources.take(1) =~= sources);
            assert(sources.take(0).filter_map(pick) =~= Seq::<BorderDraw>::empty());
        }
    }
}

// ---------------------------------------------------------------------------
// Whether anything changed
// ---------------------------------------------------------------------------

/// A hash with one more number in it: turned left by thirteen bits and mixed
/// with a multiple of the number.
pub open spec fn mixed(h: u64, v: u64) -> u64 {
    ((h << 13u64) | (h >> 51u64)) ^ v.wrapping_mul(0x100000001B3)
}

fn mix(h: u64, v: u64) -> (r: u64)
    ensures
        r == mixed(h, v),
{
    ((h << 13u64) | (h >> 51u64)) ^ v.wrapping_mul(0x100000001B3)
}

/// A hash with one more border in it.
pub open spec fn mixed_border(h: u64, b: BorderDraw) -> u64 {
    let place = mixed(mixed(mixed(mixed(h, b.x), b.y), b.w), b.h);
    let colour = mixed(
        mixed(mixed(mixed(mixed(place, b.width), b.rgba.r), b.rgba.g), b.rgba.b),
        b.rgba.a,
    );
    mixed(colour, b.pad_alpha)
}

/// The hash that no border is in.
pub const HASH_SEED: u64 = 0xB04DE4 ^ 0x9E3779B97F4A7C15;

/// The hash of borders, without their number.
pub open spec fn border_hash(borders: Seq<BorderDraw>) -> u64
    decreases borders.len(),
{
    if borders.len() == 0 {
        HASH_SEED
    } else {
        mixed_border(border_hash(borders.drop_last()), borders.last())
    }
}

/// The hash of borders and their number.
pub fn hash_borders(borders: &Vec<BorderDraw>) -> (r: u64)
    ensures
        r == mixed(border_hash(borders@), borders.len() as u64),
{
    let mut h: u64 = HASH_SEED;
    let mut i: usize = 0;
    while i < borders.len()
        invariant
            i <= borders.len(),
            h == border_hash(borders@.take(i as int)),
        decreases borders.len() - i,
    {
        let b = borders[i];
        assert(borders@.take(i + 1).drop_last() =~= borders@.take(i as int));
        h = mix(h, b.x);
        h = mix(h, b.y);
        h = mix(h, b.w);
        h = mix(h, b.h);
        h = mix(h, b.width);
        h = mix(h, b.rgba.r);
        h = mix(h, b.rgba.g);
        h = mix(h, b.rgba.b);
        h = mix(h, b.rgba.a);
        h = mix(h, b.pad_alpha);
        i += 1;
    }
    assert(borders@.take(borders@.len() as int) =~= borders@);
    mix(h, borders.len() as u64)
}

/// What to do for a frame.
#[derive(Clone, Copy, Debug, PartialEq, Eq, Structural)]
pub enum FrameAction {
    /// Draw the borders anew.
    Draw,
    /// Push what was drawn last.
    Repush,
}

/// What was drawn last.
pub struct DrawnBorders {
    pub last_hash: u64,
}

impl DrawnBorders {
    /// Nothing was drawn yet.
    pub fn new() -> (r: DrawnBorders)
        ensures
            r.last_hash == u64::MAX,
    {
        DrawnBorders { last_hash: u64::MAX }
    }

    /// What to do for a frame with borders of the given hash.
    pub fn action(&self, hash: u64) -> (r: FrameAction)
        ensures
            r == if hash == self.last_hash {
                FrameAction::Repush
            } else {
                FrameAction::Draw
            },
    {
        if hash == self.last_hash {
            FrameAction::Repush
        } else {
            FrameAction::Draw
        }
    }

    /// Notes whether what was drawn got pushed. What did not is drawn again.
    pub fn drew(&mut self, hash: u64, pushed: bool)
        ensures
            final(self).last_hash == if pushed {
                hash
            } else {
                old(self).last_hash
            },
    {
        if pushed {
            self.last_hash = hash;
        }
    }
}

// ---------------------------------------------------------------------------
// Pixels
// ---------------------------------------------------------------------------

/// Rows of pixels without what lies between them: `row` bytes out of every
/// `stride`.
pub open spec fn packed(data: Seq<u8>, row: nat, stride: nat, rows: nat) -> Seq<u8>
    decreases rows,
{
    if rows == 0 {
        Seq::empty()
    } else {
        let start = (rows - 1) * stride;
        packed(data, row, stride, (rows - 1) as nat) + data.subrange(start, start + row)
    }
}

/// Copies rows of pixels without what lies between them.
pub fn pack_rows(data: &Vec<u8>, row: usize, stride: usize, rows: usize) -> (r: Vec<u8>)
    requires
        row <= stride,
        rows * stride <= data.len(),
    ensures
        r@ == packed(data@, row as nat, stride as nat, rows as nat),
        r.len() == rows * row,
{
    let mut out: Vec<u8> = Vec::new();
    let mut y: usize = 0;
    let mut start: usize = 0;
    assert(0 * row == 0) by (nonlinear_arith);
    while y < rows
        invariant
            y <= rows,
            row <= stride,
            rows * stride <= data.len(),
            start == y * stride,
            out@ == packed(data@, row as nat, stride as nat, y as nat),
            out.len() == y * row,
        decreases rows - y,
    {
        assert((y + 1) * stride == y * stride + stride && (y + 1) * stride <= rows * stride && (y
            + 1) * row == y * row + row) by (nonlinear_arith)
            requires
                y < rows,
        ;
        let ghost before = out@;
        let mut x: usize = 0;
        while x < row
            invariant
                x <= row,
                row <= stride,
                start + stride <= data.len(),
                out@ == before + data@.subrange(start as int, start + x),
            decreases row - x,
        {
            out.push(data[start + x]);
            assert(out@ =~= before + data@.subrange(start as int, start + x + 1));
            x += 1;
        }
        y += 1;
        start += stride;
    }
    out
}

// ---------------------------------------------------------------------------
// Time
// ---------------------------------------------------------------------------

/// How long a frame lasts, in nanoseconds. A rate of no frames counts as one
/// frame in the time.
pub fn frame_interval(rate: (i32, i32)) -> (r: u64)
    requires
        rate.1 >= 0,
    ensures
        r == (rate.1 * 1_000_000_000) / (if rate.0 > 1 {
            rate.0 as int
        } else {
            1
        }),
{
    let frames: u64 = if rate.0 > 1 {
        rate.0 as u64
    } else {
        1
    };
    (rate.1 as u64 * 1_000_000_000) / frames
}

/// When the next frame is due, and how long to wait for it. One that is late
/// by more than a frame starts the count anew.
pub open spec fn paced(due: int, now: int, interval: int) -> (int, int) {
    let next = due + interval;
    if next > now {
        (next, next - now)
    } else if now - next > interval {
        (now, 0)
    } else {
        (next, 0)
    }
}

/// When the next frame is due, and how long to wait for it, in nanoseconds.
pub fn next_tick(due: u64, now: u64, interval: u64) -> (r: (u64, u64))
    requires
        due + interval <= u64::MAX,
    ensures
        (r.0 as int, r.1 as int) == paced(due as int, now as int, interval as int),
{
    let next: u64 = due + interval;
    if next > now {
        (next, next - now)
    } else if now - next > interval {
        (now, 0)
    } else {
        (next, 0)
    }
}

/// The frames never fall behind by more than one.
pub proof fn frames_keep_up(due: int, now: int, interval: int)
    requires
        interval >= 0,
    ensures
        paced(due, now, interval).0 + interval >= now,
        paced(due, now, interval).0 >= due,
{
}

} // verus!
