//! Where the pictures go when the size of an input becomes known or changes.

use crate::blocks::plan;
use crate::blocks::vision_mixer::layout;
use crate::blocks::vision_mixer::layout::{LayoutView, MultiviewLayout, Rect};
use crate::blocks::vision_mixer::pads::Zorders;
use crate::blocks::vision_mixer::params;
use vstd::prelude::*;

verus! {

#[derive(Clone, Copy, Debug, PartialEq, Eq, Structural)]
pub enum Compositor {
    Programme,
    Multiview,
}

/// One thing to do with the pads of a compositor.
#[derive(Clone, Copy, Debug, PartialEq, Eq, Structural)]
pub enum GeometryStep {
    /// Lay a tile out in a region, on the pads from `first_pad` on.
    Tile {
        compositor: Compositor,
        first_pad: usize,
        pip: usize,
        region: Rect,
        bg_zorder: u32,
        overlay_zorder: u32,
    },
    /// Show at most one input in a region, on the pads from `first_pad` on.
    Inputs {
        compositor: Compositor,
        first_pad: usize,
        active: Option<usize>,
        region: Rect,
        zorder: u32,
    },
    /// Fit an input into its thumbnail.
    Thumbnail { pad: usize, rect: Rect },
}

/// What the mixer shows at the moment.
#[derive(Clone, Copy, Debug, PartialEq, Eq, Structural)]
pub struct OnAir {
    pub num_inputs: usize,
    pub num_pips: usize,
    /// Programme is faded to black.
    pub ftb_active: bool,
    pub pgm_pip: Option<usize>,
    pub pvw_pip: Option<usize>,
    /// The inputs on programme and on preview, where no tile is.
    pub pgm_input: Option<usize>,
    pub pvw_input: Option<usize>,
}

/// What programme shows, over all of it. While it is faded to black, it is
/// left alone.
pub open spec fn pgm_steps(on_air: OnAir, canvas: Rect, z: Zorders) -> Seq<GeometryStep> {
    if on_air.ftb_active {
        Seq::empty()
    } else {
        seq![
            match on_air.pgm_pip {
                Some(pip) => GeometryStep::Tile {
                    compositor: Compositor::Programme,
                    first_pad: 0,
                    pip,
                    region: canvas,
                    bg_zorder: z.dist_pgm,
                    overlay_zorder: z.dist_pip_overlay,
                },
                None => GeometryStep::Inputs {
                    compositor: Compositor::Programme,
                    first_pad: 0,
                    active: on_air.pgm_input,
                    region: canvas,
                    zorder: z.dist_pgm,
                },
            },
        ]
    }
}

/// The thumbnails of the first `n` inputs.
pub open spec fn thumbnail_steps(view: LayoutView, n: nat) -> Seq<GeometryStep> {
    Seq::new(
        n,
        |i: int|
            GeometryStep::Thumbnail { pad: i as usize, rect: layout::rect_at(view.thumbnails, i) },
    )
}

/// What preview shows.
pub open spec fn pvw_step(on_air: OnAir, view: LayoutView, z: Zorders) -> GeometryStep {
    let first_pad = params::pvw_pad(on_air.num_inputs as nat, 0) as usize;
    match on_air.pvw_pip {
        Some(pip) => GeometryStep::Tile {
            compositor: Compositor::Multiview,
            first_pad,
            pip,
            region: view.pvw,
            bg_zorder: z.mv_big_display,
            overlay_zorder: z.mv_pvw_pip_overlay,
        },
        None => GeometryStep::Inputs {
            compositor: Compositor::Multiview,
            first_pad,
            active: on_air.pvw_input,
            region: view.pvw,
            zorder: z.mv_big_display,
        },
    }
}

/// A tile of the multiview.
pub open spec fn tile_step(on_air: OnAir, view: LayoutView, z: Zorders, pip: int) -> GeometryStep {
    GeometryStep::Tile {
        compositor: Compositor::Multiview,
        first_pad: params::pip_pad(on_air.num_inputs as nat, pip, 0) as usize,
        pip: pip as usize,
        region: view.pip_tiles[pip],
        bg_zorder: z.mv_pip_bg,
        overlay_zorder: z.mv_pip_overlay,
    }
}

/// How many tiles have a place in the multiview.
pub open spec fn placed_tiles(on_air: OnAir, view: LayoutView) -> nat {
    if on_air.num_pips < view.pip_tiles.len() {
        on_air.num_pips as nat
    } else {
        view.pip_tiles.len()
    }
}

/// All that is to be done: programme, the thumbnails, preview and the tiles.
pub open spec fn refresh_steps(
    on_air: OnAir,
    view: LayoutView,
    canvas: Rect,
    z: Zorders,
) -> Seq<GeometryStep> {
    pgm_steps(on_air, canvas, z) + thumbnail_steps(view, on_air.num_inputs as nat).push(
        pvw_step(on_air, view, z),
    ) + Seq::new(placed_tiles(on_air, view), |pip: int| tile_step(on_air, view, z, pip))
}

/// All that is to be done when the size of an input becomes known or changes.
pub fn refresh_geometry(on_air: &OnAir, view: &MultiviewLayout, canvas: Rect, z: Zorders) -> (r:
    Vec<GeometryStep>)
    requires
        params::overlay_pad(on_air.num_inputs as nat, on_air.num_pips as nat) < usize::MAX,
    ensures
        r@ == refresh_steps(*on_air, view@, canvas, z),
{
    let n: usize = on_air.num_inputs;
    let mut steps: Vec<GeometryStep> = Vec::new();
    if !on_air.ftb_active {
        let step = match on_air.pgm_pip {
            Some(pip) => GeometryStep::Tile {
                compositor: Compositor::Programme,
                first_pad: 0,
                pip,
                region: canvas,
                bg_zorder: z.dist_pgm,
                overlay_zorder: z.dist_pip_overlay,
            },
            None => GeometryStep::Inputs {
                compositor: Compositor::Programme,
                first_pad: 0,
                active: on_air.pgm_input,
                region: canvas,
                zorder: z.dist_pgm,
            },
        };
        steps.push(step);
    }
    let ghost head = pgm_steps(*on_air, canvas, z);
    assert(steps@ =~= head);
    let mut i: usize = 0;
    while i < n
        invariant
            i <= n,
            steps@ =~= head + thumbnail_steps(view@, i as nat),
        decreases n - i,
    {
        steps.push(
            GeometryStep::Thumbnail { pad: i, rect: layout::thumbnail_pad_position(view, i) },
        );
        i += 1;
    }
    let region = layout::pvw_pad_position(view);
    let first_pad: usize = n + 1;
    let step = match on_air.pvw_pip {
        Some(pip) => GeometryStep::Tile {
            compositor: Compositor::Multiview,
            first_pad,
            pip,
            region,
            bg_zorder: z.mv_big_display,
            overlay_zorder: z.mv_pvw_pip_overlay,
        },
        None => GeometryStep::Inputs {
            compositor: Compositor::Multiview,
            first_pad,
            active: on_air.pvw_input,
            region,
            zorder: z.mv_big_display,
        },
    };
    steps.push(step);
    let ghost head = steps@;
    let mut pip: usize = 0;
    while pip < on_air.num_pips && pip < view.pip_tiles.len()
        invariant
            pip <= placed_tiles(*on_air, view@),
            n == on_air.num_inputs,
            params::overlay_pad(on_air.num_inputs as nat, on_air.num_pips as nat) < usize::MAX,
            steps@ =~= head + Seq::new(pip as nat, |k: int| tile_step(*on_air, view@, z, k)),
        decreases on_air.num_pips - pip,
    {
        assert(pip * n + n <= on_air.num_pips * n && 0 <= pip * n) by (nonlinear_arith)
            requires
                pip < on_air.num_pips,
        ;
        steps.push(
            GeometryStep::Tile {
                compositor: Compositor::Multiview,
                first_pad: 2 * n + 1 + pip * n,
                pip,
                region: view.pip_tiles[pip],
                bg_zorder: z.mv_pip_bg,
                overlay_zorder: z.mv_pip_overlay,
            },
        );
        pip += 1;
    }
    assert(steps@ =~= refresh_steps(*on_air, view@, canvas, z));
    steps
}

/// Every thumbnail is fitted, whatever programme and preview show, and faded to
/// black or not.
pub proof fn thumbnails_are_always_fitted(
    on_air: OnAir,
    view: LayoutView,
    canvas: Rect,
    z: Zorders,
    i: int,
)
    requires
        0 <= i < on_air.num_inputs,
    ensures
        refresh_steps(on_air, view, canvas, z).contains(
            GeometryStep::Thumbnail { pad: i as usize, rect: layout::rect_at(view.thumbnails, i) },
        ),
{
    let head = pgm_steps(on_air, canvas, z);
    let all = refresh_steps(on_air, view, canvas, z);
    assert(all[head.len() + i] == thumbnail_steps(view, on_air.num_inputs as nat)[i]);
}

/// Whether a step places a pad, with the given number of inputs.
pub open spec fn places(
    step: GeometryStep,
    inputs: nat,
    compositor: Compositor,
    pad: int,
) -> bool {
    match step {
        GeometryStep::Tile { compositor: c, first_pad, .. } => c == compositor && first_pad <= pad
            < first_pad + inputs,
        GeometryStep::Inputs { compositor: c, first_pad, .. } => c == compositor && first_pad <= pad
            < first_pad + inputs,
        GeometryStep::Thumbnail { pad: thumbnail, .. } => compositor == Compositor::Multiview && pad
            == thumbnail,
    }
}

/// No pad is placed by two of the steps, so that none undoes what another did.
pub proof fn each_pad_is_placed_by_one_step(
    on_air: OnAir,
    view: LayoutView,
    canvas: Rect,
    z: Zorders,
    one: int,
    other: int,
    compositor: Compositor,
    pad: int,
)
    requires
        params::overlay_pad(on_air.num_inputs as nat, on_air.num_pips as nat) < usize::MAX,
        0 <= one < refresh_steps(on_air, view, canvas, z).len(),
        0 <= other < refresh_steps(on_air, view, canvas, z).len(),
        places(
            refresh_steps(on_air, view, canvas, z)[one],
            on_air.num_inputs as nat,
            compositor,
            pad,
        ),
        places(
            refresh_steps(on_air, view, canvas, z)[other],
            on_air.num_inputs as nat,
            compositor,
            pad,
        ),
    ensures
        one == other,
{
    let n = on_air.num_inputs as nat;
    let head = pgm_steps(on_air, canvas, z).len();
    lemma_step_at(on_air, view, canvas, z, one, compositor, pad);
    lemma_step_at(on_air, view, canvas, z, other, compositor, pad);
    if one > head + n && other > head + n {
        let pip = one - head - n - 1;
        let other_pip = other - head - n - 1;
        let i = pad - params::pip_pad(n, pip, 0);
        let other_i = pad - params::pip_pad(n, other_pip, 0);
        params::pip_pads_differ(n, pip, i, other_pip, other_i);
    } else if one > head + n {
        params::pip_pads_come_before_the_overlay(n, on_air.num_pips as nat, one - head - n - 1, 0);
    } else if other > head + n {
        params::pip_pads_come_before_the_overlay(
            n,
            on_air.num_pips as nat,
            other - head - n - 1,
            0,
        );
    }
}

/// Which pads the step at a place is about.
proof fn lemma_step_at(
    on_air: OnAir,
    view: LayoutView,
    canvas: Rect,
    z: Zorders,
    at: int,
    compositor: Compositor,
    pad: int,
)
    requires
        params::overlay_pad(on_air.num_inputs as nat, on_air.num_pips as nat) < usize::MAX,
        0 <= at < refresh_steps(on_air, view, canvas, z).len(),
        places(
            refresh_steps(on_air, view, canvas, z)[at],
            on_air.num_inputs as nat,
            compositor,
            pad,
        ),
    ensures
        ({
            let n = on_air.num_inputs as nat;
            let head = pgm_steps(on_air, canvas, z).len();
            if at < head {
                compositor == Compositor::Programme && at == 0
            } else if at < head + n {
                compositor == Compositor::Multiview && pad == at - head
            } else if at == head + n {
                compositor == Compositor::Multiview && params::pvw_pad(n, 0) <= pad
                    < params::pvw_pad(n, n as int)
            } else {
                let pip = at - head - n - 1;
                &&& compositor == Compositor::Multiview
                &&& 0 < n
                &&& 0 <= pip < on_air.num_pips
                &&& params::pip_pad(n, pip, 0) <= pad < params::pip_pad(n, pip, n as int)
            }
        }),
{
    let n = on_air.num_inputs as nat;
    let pips = on_air.num_pips as nat;
    let head = pgm_steps(on_air, canvas, z).len();
    let all = refresh_steps(on_air, view, canvas, z);
    assert(0 <= pips * n) by (nonlinear_arith);
    if at < head {
        assert(all[at] == pgm_steps(on_air, canvas, z)[at]);
    } else if at < head + n {
        assert(all[at] == thumbnail_steps(view, n)[at - head]);
    } else if at == head + n {
        assert(all[at] == pvw_step(on_air, view, z));
    } else {
        let pip = at - head - n - 1;
        assert(all[at] == tile_step(on_air, view, z, pip));
        if n == 0 {
            assert(false);
        }
        params::pip_pads_come_before_the_overlay(n, pips, pip, 0);
    }
}

/// Where the pads stand: the step that placed each of them last.
pub type Placed = Map<(Compositor, int), GeometryStep>;

/// Where the pads stand after some steps.
pub open spec fn after_steps(before: Placed, inputs: nat, steps: Seq<GeometryStep>) -> Placed
    decreases steps.len(),
{
    if steps.len() == 0 {
        before
    } else {
        let rest = after_steps(before, inputs, steps.drop_last());
        Map::new(
            |p: (Compositor, int)|
                places(steps.last(), inputs, p.0, p.1) || rest.dom().contains(p),
            |p: (Compositor, int)|
                if places(steps.last(), inputs, p.0, p.1) {
                    steps.last()
                } else {
                    rest[p]
                },
        )
    }
}

/// Doing all of it again, with nothing changed on air, leaves every pad where
/// it is.
pub proof fn refreshing_again_changes_nothing(
    before: Placed,
    on_air: OnAir,
    view: LayoutView,
    canvas: Rect,
    z: Zorders,
)
    ensures
        ({
            let steps = refresh_steps(on_air, view, canvas, z);
            let once = after_steps(before, on_air.num_inputs as nat, steps);
            after_steps(once, on_air.num_inputs as nat, steps) == once
        }),
{
    let n = on_air.num_inputs as nat;
    let steps = refresh_steps(on_air, view, canvas, z);
    let once = after_steps(before, n, steps);
    let twice = after_steps(once, n, steps);
    assert forall|p: (Compositor, int)|
        #![trigger twice.dom().contains(p)]
        #![trigger once.dom().contains(p)]
        same_place(twice, once, p) by {
        lemma_placed_or_kept(before, once, n, steps, p);
    }
    assert(twice =~= once);
}

/// Whether a pad stands in the same place.
spec fn same_place(a: Placed, b: Placed, p: (Compositor, int)) -> bool {
    a.dom().contains(p) == b.dom().contains(p) && (a.dom().contains(p) ==> a[p] == b[p])
}

/// A pad is either placed by the steps, wherever it stood, or stays.
proof fn lemma_placed_or_kept(
    a: Placed,
    b: Placed,
    inputs: nat,
    steps: Seq<GeometryStep>,
    p: (Compositor, int),
)
    ensures
        ({
            let x = after_steps(a, inputs, steps);
            let y = after_steps(b, inputs, steps);
            ||| x.dom().contains(p) && y.dom().contains(p) && x[p] == y[p]
            ||| same_place(x, a, p) && same_place(y, b, p)
        }),
    decreases steps.len(),
{
    if steps.len() > 0 {
        lemma_placed_or_kept(a, b, inputs, steps.drop_last(), p);
    }
}

/// A pad to watch for the size of its input.
pub struct WatchedPad {
    pub compositor: Compositor,
    pub pad: String,
}

pub open spec fn watched(v: Seq<WatchedPad>) -> Seq<(Compositor, Seq<char>)> {
    v.map_values(|w: WatchedPad| (w.compositor, w.pad@))
}

/// The pads of an input in the first `n` tiles.
pub open spec fn watched_tiles(inputs: nat, i: int, n: nat) -> Seq<(Compositor, Seq<char>)> {
    Seq::new(
        n,
        |pip: int|
            (Compositor::Multiview, plan::numbered("sink_"@, params::pip_pad(inputs, pip, i))),
    )
}

/// The pads of an input: on programme, its thumbnail, on preview and in every
/// tile.
pub open spec fn watched_for(inputs: nat, pips: nat, i: int) -> Seq<(Compositor, Seq<char>)> {
    seq![
        (Compositor::Programme, plan::numbered("sink_"@, i)),
        (Compositor::Multiview, plan::numbered("sink_"@, params::thumb_pad(i))),
        (Compositor::Multiview, plan::numbered("sink_"@, params::pvw_pad(inputs, i))),
    ] + watched_tiles(inputs, i, pips)
}

/// The pads of the first `n` inputs.
pub open spec fn watched_pads(inputs: nat, pips: nat, n: nat) -> Seq<(Compositor, Seq<char>)>
    decreases n,
{
    if n == 0 {
        Seq::empty()
    } else {
        watched_pads(inputs, pips, (n - 1) as nat) + watched_for(inputs, pips, n - 1)
    }
}

fn watch(all: &mut Vec<WatchedPad>, compositor: Compositor, pad: usize)
    ensures
        watched(final(all)@) == watched(old(all)@).push(
            (compositor, plan::numbered("sink_"@, pad as int)),
        ),
{
    let ghost before = watched(all@);
    all.push(WatchedPad { compositor, pad: plan::numbered_name("sink_", pad) });
    assert(watched(all@) =~= before.push((compositor, plan::numbered("sink_"@, pad as int))));
}

/// Every pad that carries the picture of an input.
pub fn pads_to_watch(num_inputs: usize, num_pips: usize) -> (r: Vec<WatchedPad>)
    requires
        params::overlay_pad(num_inputs as nat, num_pips as nat) < usize::MAX,
    ensures
        watched(r@) == watched_pads(num_inputs as nat, num_pips as nat, num_inputs as nat),
{
    let ghost inputs = num_inputs as nat;
    let ghost pips = num_pips as nat;
    let mut out: Vec<WatchedPad> = Vec::new();
    let mut i: usize = 0;
    assert(watched(out@) =~= watched_pads(inputs, pips, 0));
    while i < num_inputs
        invariant
            i <= num_inputs,
            inputs == num_inputs,
            pips == num_pips,
            params::overlay_pad(inputs, pips) < usize::MAX,
            watched(out@) == watched_pads(inputs, pips, i as nat),
        decreases num_inputs - i,
    {
        let ghost before = watched(out@);
        assert(0 <= pips * inputs) by (nonlinear_arith);
        watch(&mut out, Compositor::Programme, i);
        watch(&mut out, Compositor::Multiview, i);
        watch(&mut out, Compositor::Multiview, num_inputs + 1 + i);
        let ghost head = watched(out@);
        let mut pip: usize = 0;
        while pip < num_pips
            invariant
                pip <= num_pips,
                i < num_inputs,
                inputs == num_inputs,
                pips == num_pips,
                params::overlay_pad(inputs, pips) < usize::MAX,
                watched(out@) =~= head + watched_tiles(inputs, i as int, pip as nat),
            decreases num_pips - pip,
        {
            let pad = params::pip_pad_index(num_inputs, num_pips, pip, i);
            watch(&mut out, Compositor::Multiview, pad);
            pip += 1;
        }
        assert(watched(out@) =~= before + watched_for(inputs, pips, i as int));
        i += 1;
    }
    out
}

/// A width and a height, where both are above zero.
pub fn picture_size(width: i32, height: i32) -> (r: Option<(i32, i32)>)
    ensures
        r == if width > 0 && height > 0 {
            Some((width, height))
        } else {
            None
        },
{
    if width > 0 && height > 0 {
        Some((width, height))
    } else {
        None
    }
}

/// The size of an input: as its pad on programme has it, else as its thumbnail
/// has it.
pub fn input_size(on_programme: Option<(i32, i32)>, thumbnail: Option<(i32, i32)>) -> (r: Option<
    (i32, i32),
>)
    ensures
        r == if on_programme is Some {
            on_programme
        } else {
            thumbnail
        },
{
    match on_programme {
        Some(size) => Some(size),
        None => thumbnail,
    }
}

} // verus!
