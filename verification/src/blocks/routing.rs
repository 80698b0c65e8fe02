//! Audio routes between channels of numbered streams, as a matrix of mixing
//! coefficients.
//!
//! The channels of all input streams stand side by side as the columns of the
//! matrix, those of all output streams as its rows. A column with several
//! marks is an input heard on several outputs, a row with several marks is an
//! output that mixes several inputs, and a row without marks is silent.

use crate::blocks::plan;
use crate::properties::{Properties, PropertyMap, PropertyTree, PropertyValue};
use crate::text;
use vstd::prelude::*;

verus! {

/// The most streams on either side.
pub const MAX_STREAMS: u64 = 8;

/// The most channels in a stream.
pub const MAX_CHANNELS: u64 = 64;

/// The end of the id of the element that mixes.
pub const MATRIX_ELEMENT_ID_TAIL: &'static str = ":matrix";

// ---------------------------------------------------------------------------
// Routes
// ---------------------------------------------------------------------------

/// A stream and a channel in it.
pub type Spot = (int, int);

/// Where a route leads.
pub struct RouteDest {
    pub output_idx: usize,
    pub channel_idx: usize,
}

impl View for RouteDest {
    type V = Spot;

    open spec fn view(&self) -> Spot {
        (self.output_idx as int, self.channel_idx as int)
    }
}

pub open spec fn spots(v: Seq<RouteDest>) -> Seq<Spot> {
    v.map_values(|d: RouteDest| d@)
}

/// All places that one input channel is heard on.
pub struct Route {
    pub input_idx: usize,
    pub channel_idx: usize,
    pub destinations: Vec<RouteDest>,
}

pub struct RouteInfo {
    pub source: Spot,
    pub destinations: Seq<Spot>,
}

impl View for Route {
    type V = RouteInfo;

    open spec fn view(&self) -> RouteInfo {
        RouteInfo {
            source: (self.input_idx as int, self.channel_idx as int),
            destinations: spots(self.destinations@),
        }
    }
}

/// Routes, one for each input channel that has any.
pub struct RoutingMatrix {
    pub routes: Vec<Route>,
}

impl View for RoutingMatrix {
    type V = Seq<RouteInfo>;

    open spec fn view(&self) -> Seq<RouteInfo> {
        self.routes@.map_values(|r: Route| r@)
    }
}

/// No input channel has two routes.
pub open spec fn sources_differ(routes: Seq<RouteInfo>) -> bool {
    forall|i: int, j: int|
        0 <= i < j < routes.len() ==> (#[trigger] routes[i]).source != (
        #[trigger] routes[j]).source
}

/// The first route from `i` on that starts at `source`.
pub open spec fn route_from(routes: Seq<RouteInfo>, source: Spot, i: int) -> Option<int>
    decreases routes.len() - i,
{
    if i >= routes.len() {
        None
    } else if routes[i].source == source {
        Some(i)
    } else {
        route_from(routes, source, i + 1)
    }
}

/// The routes with the one from `source` replaced, or added where there was
/// none.
pub open spec fn with_route(routes: Seq<RouteInfo>, route: RouteInfo) -> Seq<RouteInfo> {
    match route_from(routes, route.source, 0) {
        Some(i) => routes.update(i, route),
        None => routes.push(route),
    }
}

proof fn lemma_route_from(routes: Seq<RouteInfo>, source: Spot, i: int)
    requires
        0 <= i <= routes.len(),
    ensures
        route_from(routes, source, i) matches Some(k) ==> i <= k < routes.len()
            && routes[k].source == source,
        route_from(routes, source, i) is None ==> forall|k: int|
            i <= k < routes.len() ==> (#[trigger] routes[k]).source != source,
    decreases routes.len() - i,
{
    if i < routes.len() && routes[i].source != source {
        lemma_route_from(routes, source, i + 1);
    }
}

/// Setting a route leaves one route for each input channel.
pub proof fn setting_a_route_keeps_sources_apart(routes: Seq<RouteInfo>, route: RouteInfo)
    requires
        sources_differ(routes),
    ensures
        sources_differ(with_route(routes, route)),
{
    lemma_route_from(routes, route.source, 0);
}

impl RoutingMatrix {
    pub fn new() -> (r: RoutingMatrix)
        ensures
            r@ == Seq::<RouteInfo>::empty(),
    {
        let r = RoutingMatrix { routes: Vec::new() };
        assert(r@ =~= Seq::<RouteInfo>::empty());
        r
    }

    /// Sets the route from an input channel.
    pub fn insert(&mut self, route: Route)
        ensures
            final(self)@ == with_route(old(self)@, route@),
    {
        let ghost before = self@;
        let ghost shown = route@;
        let ghost source = route@.source;
        let mut i: usize = 0;
        while i < self.routes.len() && !(self.routes[i].input_idx == route.input_idx
            && self.routes[i].channel_idx == route.channel_idx)
            invariant
                i <= self.routes.len(),
                self@ == before,
                self@.len() == self.routes.len(),
                shown == route@,
                source == shown.source,
                route_from(before, source, i as int) == route_from(before, source, 0),
            decreases self.routes.len() - i,
        {
            assert(before[i as int] == self.routes@[i as int]@);
            i += 1;
        }
        if i < self.routes.len() {
            assert(before[i as int] == self.routes@[i as int]@);
            assert(route_from(before, source, 0) == Some(i as int));
            self.routes.set(i, route);
            assert(self@ =~= before.update(i as int, shown));
        } else {
            self.routes.push(route);
            assert(self@ =~= before.push(shown));
        }
    }
}

// ---------------------------------------------------------------------------
// Channels side by side
// ---------------------------------------------------------------------------

/// How many channels some streams have together.
pub open spec fn total(channels: Seq<usize>) -> int
    decreases channels.len(),
{
    if channels.len() == 0 {
        0
    } else {
        total(channels.drop_last()) + channels.last()
    }
}

/// How many channels come before those of a stream.
pub open spec fn offset(channels: Seq<usize>, stream: int) -> int {
    total(channels.take(stream))
}

/// Where a channel stands among those of all streams.
pub open spec fn place(channels: Seq<usize>, spot: Spot) -> Option<int> {
    if 0 <= spot.0 < channels.len() && 0 <= spot.1 < channels[spot.0] {
        Some(offset(channels, spot.0) + spot.1)
    } else {
        None
    }
}

pub proof fn lemma_offset_step(channels: Seq<usize>, stream: int)
    requires
        0 <= stream < channels.len(),
    ensures
        offset(channels, stream + 1) == offset(channels, stream) + channels[stream],
{
    assert(channels.take(stream + 1).drop_last() =~= channels.take(stream));
}

pub proof fn lemma_offset_grows(channels: Seq<usize>, a: int, b: int)
    requires
        0 <= a <= b <= channels.len(),
    ensures
        0 <= offset(channels, a) <= offset(channels, b) <= total(channels),
{
    lemma_offset_between(channels, 0, a);
    lemma_offset_between(channels, a, b);
    lemma_offset_between(channels, b, channels.len() as int);
    assert(channels.take(0).len() == 0);
    assert(channels.take(channels.len() as int) =~= channels);
}

proof fn lemma_offset_between(channels: Seq<usize>, a: int, b: int)
    requires
        0 <= a <= b <= channels.len(),
    ensures
        offset(channels, a) <= offset(channels, b),
    decreases b - a,
{
    if a < b {
        lemma_offset_between(channels, a, b - 1);
        lemma_offset_step(channels, b - 1);
    }
}

/// Every channel stands at a place inside the matrix.
pub proof fn places_are_inside(channels: Seq<usize>, spot: Spot)
    ensures
        place(channels, spot) matches Some(at) ==> 0 <= at < total(channels),
{
    if place(channels, spot) is Some {
        lemma_offset_step(channels, spot.0);
        lemma_offset_grows(channels, 0, spot.0);
        lemma_offset_grows(channels, spot.0, spot.0 + 1);
    }
}

/// No two channels stand at the same place.
pub proof fn places_differ(channels: Seq<usize>, a: Spot, b: Spot)
    requires
        place(channels, a) is Some,
        place(channels, a) == place(channels, b),
    ensures
        a == b,
{
    if a.0 < b.0 {
        lemma_offset_step(channels, a.0);
        lemma_offset_grows(channels, a.0 + 1, b.0);
    }
    if b.0 < a.0 {
        lemma_offset_step(channels, b.0);
        lemma_offset_grows(channels, b.0 + 1, a.0);
    }
}

/// How many channels some streams have together.
pub fn channel_total(channels: &Vec<usize>) -> (r: usize)
    requires
        total(channels@) <= usize::MAX,
    ensures
        r == total(channels@),
{
    let mut sum: usize = 0;
    let mut i: usize = 0;
    while i < channels.len()
        invariant
            i <= channels.len(),
            sum == offset(channels@, i as int),
            total(channels@) <= usize::MAX,
        decreases channels.len() - i,
    {
        proof {
            lemma_offset_step(channels@, i as int);
            lemma_offset_grows(channels@, 0, i + 1);
        }
        sum += channels[i];
        i += 1;
    }
    assert(channels@.take(channels@.len() as int) =~= channels@);
    sum
}

/// Running start of each stream among the channels of all.
pub fn channel_offsets(channels: &Vec<usize>) -> (r: Vec<usize>)
    requires
        total(channels@) <= usize::MAX,
    ensures
        r.len() == channels.len(),
        forall|s: int| 0 <= s < r.len() ==> #[trigger] r@[s] == offset(channels@, s),
{
    let mut offsets: Vec<usize> = Vec::new();
    let mut sum: usize = 0;
    let mut i: usize = 0;
    while i < channels.len()
        invariant
            i <= channels.len(),
            sum == offset(channels@, i as int),
            total(channels@) <= usize::MAX,
            offsets.len() == i,
            forall|s: int| 0 <= s < i ==> #[trigger] offsets@[s] == offset(channels@, s),
        decreases channels.len() - i,
    {
        proof {
            lemma_offset_step(channels@, i as int);
            lemma_offset_grows(channels@, 0, i + 1);
        }
        offsets.push(sum);
        sum += channels[i];
        i += 1;
    }
    offsets
}

/// The first stream from `from` on whose channels hold the place `at`.
pub open spec fn stream_from(channels: Seq<usize>, at: int, from: int) -> Option<int>
    decreases channels.len() - from,
{
    if from >= channels.len() {
        None
    } else if offset(channels, from) <= at < offset(channels, from) + channels[from] {
        Some(from)
    } else {
        stream_from(channels, at, from + 1)
    }
}

/// The stream that the channel at a place belongs to.
pub open spec fn stream_at(channels: Seq<usize>, at: int) -> Option<int> {
    stream_from(channels, at, 0)
}

/// Which stream a place belongs to, and how far into the stream it is.
pub fn stream_for_channel(channel: usize, channels: &Vec<usize>) -> (r: Option<(usize, usize)>)
    requires
        total(channels@) <= usize::MAX,
    ensures
        r matches Some((stream, local)) ==> stream_at(channels@, channel as int) == Some(
            stream as int,
        ) && place(channels@, (stream as int, local as int)) == Some(channel as int),
        r is None ==> stream_at(channels@, channel as int) is None,
{
    let offsets = channel_offsets(channels);
    let mut i: usize = 0;
    while i < channels.len()
        invariant
            i <= channels.len(),
            offsets.len() == channels.len(),
            forall|s: int|
                0 <= s < offsets.len() ==> #[trigger] offsets@[s] == offset(channels@, s),
            stream_from(channels@, channel as int, i as int) == stream_at(
                channels@,
                channel as int,
            ),
        decreases channels.len() - i,
    {
        if channel >= offsets[i] && channel - offsets[i] < channels[i] {
            return Some((i, channel - offsets[i]));
        }
        i += 1;
    }
    None
}

proof fn lemma_stream_from(channels: Seq<usize>, spot: Spot, from: int)
    requires
        place(channels, spot) is Some,
        0 <= from <= spot.0,
    ensures
        stream_from(channels, place(channels, spot)->0, from) == Some(spot.0),
    decreases spot.0 - from,
{
    if from < spot.0 {
        lemma_stream_from(channels, spot, from + 1);
        lemma_offset_step(channels, from);
        lemma_offset_grows(channels, from + 1, spot.0);
    }
}

/// From the place of a channel its stream is found again.
pub proof fn stream_of_a_place(channels: Seq<usize>, spot: Spot)
    requires
        place(channels, spot) is Some,
    ensures
        stream_at(channels, place(channels, spot)->0) == Some(spot.0),
{
    lemma_stream_from(channels, spot, 0);
}

proof fn lemma_stream_holds(channels: Seq<usize>, at: int, from: int)
    requires
        stream_from(channels, at, from) is Some,
    ensures
        ({
            let stream = stream_from(channels, at, from)->0;
            &&& from <= stream < channels.len()
            &&& offset(channels, stream) <= at < offset(channels, stream) + channels[stream]
        }),
    decreases channels.len() - from,
{
    if !(offset(channels, from) <= at < offset(channels, from) + channels[from]) {
        lemma_stream_holds(channels, at, from + 1);
    }
}

/// The stream that is found for a place has a channel there.
pub proof fn stream_holds_its_places(channels: Seq<usize>, at: int)
    requires
        stream_at(channels, at) is Some,
    ensures
        ({
            let stream = stream_at(channels, at)->0;
            place(channels, (stream, at - offset(channels, stream))) == Some(at)
        }),
{
    lemma_stream_holds(channels, at, 0);
}

proof fn lemma_stream_found(channels: Seq<usize>, at: int, from: int)
    requires
        0 <= from <= channels.len(),
        offset(channels, from) <= at < total(channels),
    ensures
        stream_from(channels, at, from) is Some,
    decreases channels.len() - from,
{
    if from == channels.len() {
        assert(channels.take(from) =~= channels);
    } else {
        lemma_offset_step(channels, from);
        if at >= offset(channels, from) + channels[from] {
            lemma_stream_found(channels, at, from + 1);
        }
    }
}

/// Every place inside the matrix belongs to a stream.
pub proof fn every_place_has_a_stream(channels: Seq<usize>, at: int)
    requires
        0 <= at < total(channels),
    ensures
        stream_at(channels, at) is Some,
{
    assert(channels.take(0).len() == 0);
    lemma_stream_found(channels, at, 0);
}

// ---------------------------------------------------------------------------
// The matrix
// ---------------------------------------------------------------------------

/// A route from `source` to `dest` marks the cell.
pub open spec fn joins(
    source: Spot,
    dest: Spot,
    inputs: Seq<usize>,
    outputs: Seq<usize>,
    row: int,
    column: int,
) -> bool {
    place(inputs, source) == Some(column) && place(outputs, dest) == Some(row)
}

/// Some route marks the cell.
pub open spec fn crosspoint(
    routes: Seq<RouteInfo>,
    inputs: Seq<usize>,
    outputs: Seq<usize>,
    row: int,
    column: int,
) -> bool {
    exists|j: int, d: int|
        0 <= j < routes.len() && 0 <= d < routes[j].destinations.len() && #[trigger] joins(
            routes[j].source,
            routes[j].destinations[d],
            inputs,
            outputs,
            row,
            column,
        )
}

/// The matrix that routes stand for, by row and column. Routes from or to
/// channels that are not there mark nothing.
pub open spec fn matrix_of(
    routes: Seq<RouteInfo>,
    inputs: Seq<usize>,
    outputs: Seq<usize>,
) -> Seq<Seq<bool>> {
    Seq::new(
        total(outputs) as nat,
        |row: int|
            Seq::new(
                total(inputs) as nat,
                |column: int| crosspoint(routes, inputs, outputs, row, column),
            ),
    )
}

/// A row of `n` cells without marks.
fn blank_row(n: usize) -> (r: Vec<bool>)
    ensures
        r@ == Seq::new(n as nat, |i: int| false),
{
    let mut row: Vec<bool> = Vec::new();
    let mut i: usize = 0;
    while i < n
        invariant
            i <= n,
            row@ == Seq::new(i as nat, |k: int| false),
        decreases n - i,
    {
        row.push(false);
        i += 1;
        assert(row@ =~= Seq::new(i as nat, |k: int| false));
    }
    row
}

/// Marks a cell.
fn mark(matrix: &mut Vec<Vec<bool>>, row: usize, column: usize)
    requires
        row < old(matrix).len(),
        column < old(matrix)@[row as int].len(),
    ensures
        plan::rows(final(matrix)@) == plan::rows(old(matrix)@).update(
            row as int,
            plan::rows(old(matrix)@)[row as int].update(column as int, true),
        ),
{
    let ghost before = plan::rows(matrix@);
    matrix[row][column] = true;
    assert(plan::rows(matrix@) =~= before.update(
        row as int,
        before[row as int].update(column as int, true),
    ));
}

/// A further destination of a route marks one more cell, if any.
proof fn lemma_one_more_destination(
    routes: Seq<RouteInfo>,
    route: RouteInfo,
    d: int,
    inputs: Seq<usize>,
    outputs: Seq<usize>,
    row: int,
    column: int,
)
    requires
        0 <= d < route.destinations.len(),
    ensures
        crosspoint(
            routes.push(
                RouteInfo { source: route.source, destinations: route.destinations.take(d + 1) },
            ),
            inputs,
            outputs,
            row,
            column,
        ) == (crosspoint(
            routes.push(RouteInfo { source: route.source, destinations: route.destinations.take(d) }),
            inputs,
            outputs,
            row,
            column,
        ) || joins(route.source, route.destinations[d], inputs, outputs, row, column)),
{
    let less = routes.push(
        RouteInfo { source: route.source, destinations: route.destinations.take(d) },
    );
    let more = routes.push(
        RouteInfo { source: route.source, destinations: route.destinations.take(d + 1) },
    );
    let n = routes.len() as int;
    if crosspoint(less, inputs, outputs, row, column) {
        let (j, e) = choose|j: int, e: int|
            0 <= j < less.len() && 0 <= e < less[j].destinations.len() && #[trigger] joins(
                less[j].source,
                less[j].destinations[e],
                inputs,
                outputs,
                row,
                column,
            );
        assert(joins(more[j].source, more[j].destinations[e], inputs, outputs, row, column));
    }
    if joins(route.source, route.destinations[d], inputs, outputs, row, column) {
        assert(joins(more[n].source, more[n].destinations[d], inputs, outputs, row, column));
    }
    if crosspoint(more, inputs, outputs, row, column) {
        let (j, e) = choose|j: int, e: int|
            0 <= j < more.len() && 0 <= e < more[j].destinations.len() && #[trigger] joins(
                more[j].source,
                more[j].destinations[e],
                inputs,
                outputs,
                row,
                column,
            );
        if j < n || e < d {
            assert(joins(less[j].source, less[j].destinations[e], inputs, outputs, row, column));
        }
    }
}

/// A route that leads nowhere marks nothing.
proof fn lemma_no_destination(
    routes: Seq<RouteInfo>,
    route: RouteInfo,
    inputs: Seq<usize>,
    outputs: Seq<usize>,
    row: int,
    column: int,
)
    requires
        route.destinations.len() == 0 || place(inputs, route.source) is None,
    ensures
        crosspoint(routes.push(route), inputs, outputs, row, column) == crosspoint(
            routes,
            inputs,
            outputs,
            row,
            column,
        ),
{
    let more = routes.push(route);
    if crosspoint(routes, inputs, outputs, row, column) {
        let (j, e) = choose|j: int, e: int|
            0 <= j < routes.len() && 0 <= e < routes[j].destinations.len() && #[trigger] joins(
                routes[j].source,
                routes[j].destinations[e],
                inputs,
                outputs,
                row,
                column,
            );
        assert(joins(more[j].source, more[j].destinations[e], inputs, outputs, row, column));
    }
    if crosspoint(more, inputs, outputs, row, column) {
        let (j, e) = choose|j: int, e: int|
            0 <= j < more.len() && 0 <= e < more[j].destinations.len() && #[trigger] joins(
                more[j].source,
                more[j].destinations[e],
                inputs,
                outputs,
                row,
                column,
            );
        assert(joins(routes[j].source, routes[j].destinations[e], inputs, outputs, row, column));
    }
}

/// Where a channel stands, given where its stream starts.
fn find_place(channels: &Vec<usize>, offsets: &Vec<usize>, stream: usize, channel: usize) -> (r:
    Option<usize>)
    requires
        total(channels@) <= usize::MAX,
        offsets.len() == channels.len(),
        forall|s: int| 0 <= s < offsets.len() ==> #[trigger] offsets@[s] == offset(channels@, s),
    ensures
        r matches Some(at) ==> place(channels@, (stream as int, channel as int)) == Some(at as int)
            && at < total(channels@),
        r is None ==> place(channels@, (stream as int, channel as int)) is None,
{
    if stream >= channels.len() || channel >= channels[stream] {
        return None;
    }
    proof {
        places_are_inside(channels@, (stream as int, channel as int));
    }
    Some(offsets[stream] + channel)
}

/// Marks the cells of one route.
fn mark_route(
    matrix: &mut Vec<Vec<bool>>,
    route: &Route,
    inputs: &Vec<usize>,
    outputs: &Vec<usize>,
    in_offsets: &Vec<usize>,
    out_offsets: &Vec<usize>,
    before: Ghost<Seq<RouteInfo>>,
)
    requires
        total(inputs@) <= usize::MAX,
        total(outputs@) <= usize::MAX,
        in_offsets.len() == inputs.len(),
        forall|s: int|
            0 <= s < in_offsets.len() ==> #[trigger] in_offsets@[s] == offset(inputs@, s),
        out_offsets.len() == outputs.len(),
        forall|s: int|
            0 <= s < out_offsets.len() ==> #[trigger] out_offsets@[s] == offset(outputs@, s),
        plan::rows(old(matrix)@) == matrix_of(before@, inputs@, outputs@),
    ensures
        plan::rows(final(matrix)@) == matrix_of(before@.push(route@), inputs@, outputs@),
{
    let ghost ins = inputs@;
    let ghost outs = outputs@;
    let column: usize = match find_place(inputs, in_offsets, route.input_idx, route.channel_idx) {
        Some(column) => column,
        None => {
            proof {
                assert forall|row: int, col: int|
                    #[trigger] crosspoint(before@.push(route@), ins, outs, row, col) == crosspoint(
                        before@,
                        ins,
                        outs,
                        row,
                        col,
                    ) by {
                    lemma_no_destination(before@, route@, ins, outs, row, col);
                }
                assert(matrix_of(before@.push(route@), ins, outs) =~~= matrix_of(
                    before@,
                    ins,
                    outs,
                ));
            }
            return ;
        },
    };
    let ghost all = route@.destinations;
    let ghost partial = |d: int|
        before@.push(RouteInfo { source: route@.source, destinations: all.take(d) });
    let mut d: usize = 0;
    proof {
        assert forall|row: int, col: int|
            #[trigger] crosspoint(partial(0), ins, outs, row, col) == crosspoint(
                before@,
                ins,
                outs,
                row,
                col,
            ) by {
            lemma_no_destination(
                before@,
                RouteInfo { source: route@.source, destinations: all.take(0) },
                ins,
                outs,
                row,
                col,
            );
        }
        assert(matrix_of(partial(0), ins, outs) =~~= matrix_of(before@, ins, outs));
    }
    while d < route.destinations.len()
        invariant
            d <= route.destinations.len(),
            ins == inputs@,
            outs == outputs@,
            total(ins) <= usize::MAX,
            total(outs) <= usize::MAX,
            out_offsets.len() == outputs.len(),
            forall|s: int|
                0 <= s < out_offsets.len() ==> #[trigger] out_offsets@[s] == offset(outputs@, s),
            all == route@.destinations,
            all.len() == route.destinations.len(),
            place(ins, route@.source) == Some(column as int),
            column < total(ins),
            partial == (|d: int|
                before@.push(RouteInfo { source: route@.source, destinations: all.take(d) })),
            plan::rows(matrix@) == matrix_of(partial(d as int), ins, outs),
        decreases route.destinations.len() - d,
    {
        let ghost known = plan::rows(matrix@);
        let dest = &route.destinations[d];
        assert(all[d as int] == dest@);
        proof {
            assert forall|row: int, col: int|
                #[trigger] crosspoint(partial(d + 1), ins, outs, row, col) == (crosspoint(
                    partial(d as int),
                    ins,
                    outs,
                    row,
                    col,
                ) || joins(route@.source, all[d as int], ins, outs, row, col)) by {
                lemma_one_more_destination(before@, route@, d as int, ins, outs, row, col);
            }
        }
        match find_place(outputs, out_offsets, dest.output_idx, dest.channel_idx) {
            Some(row) => {
                assert(known.len() == total(outs));
                assert(known[row as int].len() == total(ins));
                mark(matrix, row, column);
                assert(plan::rows(matrix@) =~~= matrix_of(partial(d + 1), ins, outs));
            },
            None => {
                assert(known =~~= matrix_of(partial(d + 1), ins, outs));
            },
        }
        d += 1;
    }
    assert(all.take(all.len() as int) =~= all);
}

/// The matrix that routes stand for.
pub fn build_matrix(
    routing: &RoutingMatrix,
    input_channels: &Vec<usize>,
    output_channels: &Vec<usize>,
) -> (r: Vec<Vec<bool>>)
    requires
        total(input_channels@) <= usize::MAX,
        total(output_channels@) <= usize::MAX,
    ensures
        plan::rows(r@) == matrix_of(routing@, input_channels@, output_channels@),
{
    let ghost ins = input_channels@;
    let ghost outs = output_channels@;
    let total_in = channel_total(input_channels);
    let total_out = channel_total(output_channels);
    let in_offsets = channel_offsets(input_channels);
    let out_offsets = channel_offsets(output_channels);
    let ghost none = Seq::<RouteInfo>::empty();
    let mut matrix: Vec<Vec<bool>> = Vec::new();
    let mut i: usize = 0;
    while i < total_out
        invariant
            i <= total_out,
            matrix.len() == i,
            forall|k: int|
                0 <= k < i ==> (#[trigger] matrix@[k])@ == Seq::new(total_in as nat, |c: int| false),
        decreases total_out - i,
    {
        matrix.push(blank_row(total_in));
        i += 1;
    }
    assert(plan::rows(matrix@) =~~= matrix_of(none, ins, outs));
    let mut j: usize = 0;
    assert(routing@.take(0) =~= none);
    while j < routing.routes.len()
        invariant
            j <= routing.routes.len(),
            ins == input_channels@,
            outs == output_channels@,
            total(ins) <= usize::MAX,
            total(outs) <= usize::MAX,
            in_offsets.len() == input_channels.len(),
            forall|s: int|
                0 <= s < in_offsets.len() ==> #[trigger] in_offsets@[s] == offset(ins, s),
            out_offsets.len() == output_channels.len(),
            forall|s: int|
                0 <= s < out_offsets.len() ==> #[trigger] out_offsets@[s] == offset(outs, s),
            plan::rows(matrix@) == matrix_of(routing@.take(j as int), ins, outs),
        decreases routing.routes.len() - j,
    {
        mark_route(
            &mut matrix,
            &routing.routes[j],
            input_channels,
            output_channels,
            &in_offsets,
            &out_offsets,
            Ghost(routing@.take(j as int)),
        );
        assert(routing@.take(j + 1) =~= routing@.take(j as int).push(routing@[j as int]));
        j += 1;
    }
    assert(routing@.take(routing@.len() as int) =~= routing@);
    matrix
}

// ---------------------------------------------------------------------------
// Laws of the matrix
// ---------------------------------------------------------------------------

/// Every destination of every route is heard: its cell is marked, whatever the
/// other routes are.
pub proof fn routed_channels_are_joined(
    routes: Seq<RouteInfo>,
    inputs: Seq<usize>,
    outputs: Seq<usize>,
    j: int,
    d: int,
)
    requires
        0 <= j < routes.len(),
        0 <= d < routes[j].destinations.len(),
        place(inputs, routes[j].source) is Some,
        place(outputs, routes[j].destinations[d]) is Some,
    ensures
        matrix_of(routes, inputs, outputs)[place(outputs, routes[j].destinations[d])->0][place(
            inputs,
            routes[j].source,
        )->0],
{
    let row = place(outputs, routes[j].destinations[d])->0;
    let column = place(inputs, routes[j].source)->0;
    places_are_inside(inputs, routes[j].source);
    places_are_inside(outputs, routes[j].destinations[d]);
    assert(joins(routes[j].source, routes[j].destinations[d], inputs, outputs, row, column));
    assert(crosspoint(routes, inputs, outputs, row, column));
}

/// An output channel that no route leads to is silent.
pub proof fn unrouted_output_is_silent(
    routes: Seq<RouteInfo>,
    inputs: Seq<usize>,
    outputs: Seq<usize>,
    output: Spot,
    column: int,
)
    requires
        place(outputs, output) is Some,
        0 <= column < total(inputs),
        forall|j: int, d: int|
            0 <= j < routes.len() && 0 <= d < routes[j].destinations.len()
                ==> #[trigger] routes[j].destinations[d] != output,
    ensures
        !matrix_of(routes, inputs, outputs)[place(outputs, output)->0][column],
{
    let row = place(outputs, output)->0;
    places_are_inside(outputs, output);
    if crosspoint(routes, inputs, outputs, row, column) {
        let (j, d) = choose|j: int, d: int|
            0 <= j < routes.len() && 0 <= d < routes[j].destinations.len() && #[trigger] joins(
                routes[j].source,
                routes[j].destinations[d],
                inputs,
                outputs,
                row,
                column,
            );
        places_differ(outputs, output, routes[j].destinations[d]);
    }
}

/// What is marked was routed: every mark comes from a route between the
/// channels at its column and row.
pub proof fn joined_channels_are_routed(
    routes: Seq<RouteInfo>,
    inputs: Seq<usize>,
    outputs: Seq<usize>,
    input: Spot,
    output: Spot,
)
    requires
        place(inputs, input) is Some,
        place(outputs, output) is Some,
        matrix_of(routes, inputs, outputs)[place(outputs, output)->0][place(inputs, input)->0],
    ensures
        exists|j: int|
            0 <= j < routes.len() && (#[trigger] routes[j]).source == input
                && routes[j].destinations.contains(output),
{
    let row = place(outputs, output)->0;
    let column = place(inputs, input)->0;
    places_are_inside(inputs, input);
    places_are_inside(outputs, output);
    assert(crosspoint(routes, inputs, outputs, row, column));
    let (j, d) = choose|j: int, d: int|
        0 <= j < routes.len() && 0 <= d < routes[j].destinations.len() && #[trigger] joins(
            routes[j].source,
            routes[j].destinations[d],
            inputs,
            outputs,
            row,
            column,
        );
    places_differ(inputs, input, routes[j].source);
    places_differ(outputs, output, routes[j].destinations[d]);
    assert(routes[j].source == input);
}

// ---------------------------------------------------------------------------
// Routes as they are written
// ---------------------------------------------------------------------------

/// Names and the lists under them.
pub type RouteEntries = Seq<(Seq<char>, Seq<Seq<char>>)>;

pub open spec fn route_entries(v: Seq<(String, Vec<String>)>) -> RouteEntries {
    v.map_values(|e: (String, Vec<String>)| (e.0@, text::texts(e.1@)))
}

/// The names and lists of texts that a JSON object holds, in the order of the
/// names, where the text is such an object.
pub uninterp spec fn route_document(text: Seq<char>) -> Option<RouteEntries>;

/// `serde_json::from_str` into a map from names to lists of texts, then the
/// entries of the map in the order of their names: the entries where the text
/// is a JSON object whose members are all lists of texts, an error where it is
/// anything else. Both are functions of the text alone.
#[verifier::external_body]
fn read_routes(text: &str) -> (r: Result<Vec<(String, Vec<String>)>, serde_json::Error>)
    ensures
        r matches Ok(entries) ==> route_document(text@) == Some(route_entries(entries@)),
        r is Err ==> route_document(text@) is None,
{
    serde_json::from_str::<std::collections::BTreeMap<String, Vec<String>>>(text).map(
        |entries| entries.into_iter().collect(),
    )
}

/// The stream and channel that a key such as `i0c1` or `o2c3` names.
pub open spec fn named_spot(key: Seq<char>, prefix: char) -> Option<Spot> {
    if key.len() == 0 || key[0] != prefix {
        None
    } else {
        let rest = key.skip(1);
        let c = text::index_from(rest, 'c', 0);
        if c >= rest.len() {
            None
        } else {
            match (
                text::parsed_number(rest.take(c), usize::MAX as nat),
                text::parsed_number(rest.skip(c + 1), usize::MAX as nat),
            ) {
                (Some(stream), Some(channel)) => Some((stream as int, channel as int)),
                _ => None,
            }
        }
    }
}

/// Reads a routing key like `i0c1` or `o2c3` as a stream and a channel.
pub fn parse_routing_key(key: &str, prefix: char) -> (r: Option<(usize, usize)>)
    ensures
        r matches Some((stream, channel)) ==> named_spot(key@, prefix) == Some(
            (stream as int, channel as int),
        ),
        r is None ==> named_spot(key@, prefix) is None,
{
    let v = text::chars_of(key);
    if v.len() == 0 || v[0] != prefix {
        return None;
    }
    let rest_text = text::text_between(&v, 1, v.len());
    let rest = text::chars_of(rest_text.as_str());
    assert(rest@ =~= key@.skip(1));
    let c = text::find_char(&rest, 'c', 0);
    if c >= rest.len() {
        return None;
    }
    let stream = text::text_between(&rest, 0, c);
    let channel = text::text_between(&rest, c + 1, rest.len());
    assert(stream@ =~= rest@.take(c as int));
    assert(channel@ =~= rest@.skip(c + 1));
    match (text::parse_usize(stream.as_str()), text::parse_usize(channel.as_str())) {
        (Some(s), Some(n)) => Some((s, n)),
        _ => None,
    }
}

/// A key is read as the stream and channel that it was written for.
pub proof fn routing_key_reads_back(prefix: char, stream: nat, channel: nat)
    requires
        stream <= usize::MAX,
        channel <= usize::MAX,
    ensures
        named_spot(
            seq![prefix] + text::decimal(stream) + seq!['c'] + text::decimal(channel),
            prefix,
        ) == Some((stream as int, channel as int)),
{
    let first = text::decimal(stream);
    let second = text::decimal(channel);
    let key = seq![prefix] + first + seq!['c'] + second;
    let rest = key.skip(1);
    assert(rest =~= first + seq!['c'] + second);
    text::lemma_decimal_is_digits(stream);
    assert forall|i: int| 0 <= i < first.len() implies rest[i] != 'c' by {
        assert(rest[i] == first[i]);
        assert(text::is_digit(first[i]));
    }
    lemma_index_from(rest, 'c', 0, first.len() as int);
    assert(rest.take(first.len() as int) =~= first);
    assert(rest.skip(first.len() as int + 1) =~= second);
    text::parse_reads_decimal(stream, usize::MAX as nat);
    text::parse_reads_decimal(channel, usize::MAX as nat);
}

proof fn lemma_index_from(s: Seq<char>, c: char, i: int, at: int)
    requires
        0 <= i <= at < s.len(),
        s[at] == c,
        forall|k: int| i <= k < at ==> s[k] != c,
    ensures
        text::index_from(s, c, i) == at,
    decreases at - i,
{
    if i < at {
        lemma_index_from(s, c, i + 1, at);
    }
}

/// The destinations that a list names. Texts that name none are passed over.
pub open spec fn named_destinations(list: Seq<Seq<char>>) -> Seq<Spot> {
    list.filter_map(|key: Seq<char>| named_spot(key, 'o'))
}

/// The routes that entries stand for, the last one winning where two names
/// stand for the same input channel. Names of no channel and lists without a
/// destination are passed over.
pub open spec fn routes_of(entries: RouteEntries) -> Seq<RouteInfo>
    decreases entries.len(),
{
    if entries.len() == 0 {
        Seq::empty()
    } else {
        let before = routes_of(entries.drop_last());
        let last = entries.last();
        match named_spot(last.0, 'i') {
            Some(source) => if named_destinations(last.1).len() > 0 {
                with_route(
                    before,
                    RouteInfo { source, destinations: named_destinations(last.1) },
                )
            } else {
                before
            },
            None => before,
        }
    }
}

/// The routes that a text stands for: none where it is empty, or no JSON
/// object of lists of texts.
pub open spec fn routes_in(json: Seq<char>) -> Seq<RouteInfo> {
    if json.len() == 0 || json == "{}"@ {
        Seq::empty()
    } else {
        match route_document(json) {
            Some(entries) => routes_of(entries),
            None => Seq::empty(),
        }
    }
}

fn parse_destinations(list: &Vec<String>) -> (r: Vec<RouteDest>)
    ensures
        spots(r@) == named_destinations(text::texts(list@)),
{
    let ghost all = text::texts(list@);
    let ghost pick = |key: Seq<char>| named_spot(key, 'o');
    let mut out: Vec<RouteDest> = Vec::new();
    let mut i: usize = 0;
    proof {
        reveal(Seq::filter_map);
        assert(all.take(0).filter_map(pick) =~= Seq::<Spot>::empty());
        assert(spots(out@) =~= Seq::<Spot>::empty());
    }
    while i < list.len()
        invariant
            i <= list.len(),
            all == text::texts(list@),
            all.len() == list.len(),
            pick == (|key: Seq<char>| named_spot(key, 'o')),
            spots(out@) == all.take(i as int).filter_map(pick),
        decreases list.len() - i,
    {
        let ghost before = spots(out@);
        proof {
            all.lemma_filter_map_take_succ(pick, i as int);
            assert(all[i as int] == list@[i as int]@);
        }
        match parse_routing_key(list[i].as_str(), 'o') {
            Some((output_idx, channel_idx)) => {
                out.push(RouteDest { output_idx, channel_idx });
                assert(spots(out@) =~= before.push((output_idx as int, channel_idx as int)));
            },
            None => {
                assert(before =~= before + Seq::<Spot>::empty());
            },
        }
        i += 1;
    }
    assert(all.take(all.len() as int) =~= all);
    out
}

/// The routes that parsed entries stand for.
pub fn routes_from_entries(entries: &Vec<(String, Vec<String>)>) -> (r: RoutingMatrix)
    ensures
        r@ == routes_of(route_entries(entries@)),
{
    let ghost all = route_entries(entries@);
    let mut matrix = RoutingMatrix::new();
    let mut i: usize = 0;
    while i < entries.len()
        invariant
            i <= entries.len(),
            all == route_entries(entries@),
            all.len() == entries.len(),
            matrix@ == routes_of(all.take(i as int)),
        decreases entries.len() - i,
    {
        let ghost known = all.take(i + 1);
        proof {
            assert(known.drop_last() =~= all.take(i as int));
            assert(known.last() == (entries@[i as int].0@, text::texts(entries@[i as int].1@)));
        }
        if let Some((input_idx, channel_idx)) = parse_routing_key(entries[i].0.as_str(), 'i') {
            let destinations = parse_destinations(&entries[i].1);
            if destinations.len() > 0 {
                matrix.insert(Route { input_idx, channel_idx, destinations });
            }
        }
        i += 1;
    }
    assert(all.take(all.len() as int) =~= all);
    matrix
}

/// The routes that a text stands for, written as
/// `{"i0c0": ["o0c0", "o1c0"], "i0c1": ["o0c1"]}`.
pub fn parse_routing_json(json: &str) -> (r: RoutingMatrix)
    ensures
        r@ == routes_in(json@),
{
    if json.is_empty() || text::same(json, "{}") {
        return RoutingMatrix::new();
    }
    match read_routes(json) {
        Ok(entries) => routes_from_entries(&entries),
        Err(_) => RoutingMatrix::new(),
    }
}

/// Routes as they are written have one route for each input channel.
pub proof fn written_routes_have_different_sources(json: Seq<char>)
    ensures
        sources_differ(routes_in(json)),
{
    if let Some(entries) = route_document(json) {
        lemma_routes_of_differ(entries);
    }
}

proof fn lemma_routes_of_differ(entries: RouteEntries)
    ensures
        sources_differ(routes_of(entries)),
    decreases entries.len(),
{
    if entries.len() > 0 {
        lemma_routes_of_differ(entries.drop_last());
        let last = entries.last();
        if let Some(source) = named_spot(last.0, 'i') {
            setting_a_route_keeps_sources_apart(
                routes_of(entries.drop_last()),
                RouteInfo { source, destinations: named_destinations(last.1) },
            );
        }
    }
}

// ---------------------------------------------------------------------------
// Routes from properties
// ---------------------------------------------------------------------------

/// A number between one and `most`: the one set under a name, if it is above
/// zero, else two.
pub open spec fn count_under(p: PropertyMap, name: Seq<char>, most: u64) -> usize {
    let n = match text::lookup(p, name) {
        Some(PropertyTree::UInt(n)) => n as int,
        Some(PropertyTree::Int(n)) => if n > 0 {
            n as int
        } else {
            2
        },
        _ => 2,
    };
    if n < 1 {
        1
    } else if n > most {
        most as usize
    } else {
        n as usize
    }
}

fn read_count(properties: &Properties, name: &str, most: u64) -> (r: usize)
    requires
        2 <= most <= 1000,
    ensures
        r == count_under(properties@, name@, most),
        1 <= r <= most,
{
    let n: u64 = match properties.get(name) {
        Some(PropertyValue::UInt(n)) => *n,
        Some(PropertyValue::Int(n)) => if *n > 0 {
            *n as u64
        } else {
            2
        },
        _ => 2,
    };
    if n < 1 {
        1
    } else if n > most {
        most as usize
    } else {
        n as usize
    }
}

/// How many streams the properties ask for.
pub fn parse_num_streams(properties: &Properties, name: &str) -> (r: usize)
    ensures
        r == count_under(properties@, name@, MAX_STREAMS),
        1 <= r <= MAX_STREAMS,
{
    read_count(properties, name, MAX_STREAMS)
}

/// The name of the property that says how many channels a stream has.
pub open spec fn channels_name(side: Seq<char>, i: int) -> Seq<char> {
    side + "_"@ + text::decimal(i as nat) + "_channels"@
}

pub fn channels_property(side: &str, i: usize) -> (r: String)
    ensures
        r@ == channels_name(side@, i as int),
{
    let number = text::usize_text(i);
    side.to_owned().concat("_").concat(number.as_str()).concat("_channels")
}

/// How many channels each of the first `n` streams has.
pub open spec fn channels_under(p: PropertyMap, side: Seq<char>, n: nat) -> Seq<usize> {
    Seq::new(n, |i: int| count_under(p, channels_name(side, i), MAX_CHANNELS))
}

/// The input streams that the properties ask for.
pub open spec fn input_layout(p: PropertyMap) -> Seq<usize> {
    channels_under(p, "input"@, count_under(p, "num_inputs"@, MAX_STREAMS) as nat)
}

/// The output streams that the properties ask for.
pub open spec fn output_layout(p: PropertyMap) -> Seq<usize> {
    channels_under(p, "output"@, count_under(p, "num_outputs"@, MAX_STREAMS) as nat)
}

proof fn lemma_total_bounded(channels: Seq<usize>)
    requires
        forall|i: int| 0 <= i < channels.len() ==> #[trigger] channels[i] <= MAX_CHANNELS,
    ensures
        0 <= total(channels) <= channels.len() * 64,
    decreases channels.len(),
{
    if channels.len() > 0 {
        assert(channels.last() <= MAX_CHANNELS);
        lemma_total_bounded(channels.drop_last());
    }
}

/// Streams as the properties ask for them have at most 512 channels.
pub proof fn layouts_are_bounded(p: PropertyMap)
    ensures
        1 <= input_layout(p).len() <= MAX_STREAMS,
        1 <= output_layout(p).len() <= MAX_STREAMS,
        0 <= total(input_layout(p)) <= 512,
        0 <= total(output_layout(p)) <= 512,
{
    lemma_total_bounded(input_layout(p));
    lemma_total_bounded(output_layout(p));
}

fn read_channels(properties: &Properties, side: &str, n: usize) -> (r: Vec<usize>)
    ensures
        r@ == channels_under(properties@, side@, n as nat),
{
    let mut out: Vec<usize> = Vec::new();
    let mut i: usize = 0;
    while i < n
        invariant
            i <= n,
            out@ =~= channels_under(properties@, side@, i as nat),
        decreases n - i,
    {
        let name = channels_property(side, i);
        out.push(read_count(properties, name.as_str(), MAX_CHANNELS));
        i += 1;
    }
    out
}

/// How many channels each stream of a block has.
pub struct ChannelLayout {
    pub inputs: Vec<usize>,
    pub outputs: Vec<usize>,
}

pub struct LayoutInfo {
    pub inputs: Seq<usize>,
    pub outputs: Seq<usize>,
}

impl View for ChannelLayout {
    type V = LayoutInfo;

    open spec fn view(&self) -> LayoutInfo {
        LayoutInfo { inputs: self.inputs@, outputs: self.outputs@ }
    }
}

/// The streams that the properties ask for.
pub open spec fn layout_of(p: PropertyMap) -> LayoutInfo {
    LayoutInfo { inputs: input_layout(p), outputs: output_layout(p) }
}

/// Matrices for the layout are no larger than memory can be addressed.
pub open spec fn layout_fits(layout: LayoutInfo) -> bool {
    total(layout.inputs) <= usize::MAX && total(layout.outputs) <= usize::MAX
}

/// The streams that the properties ask for.
pub fn read_layout(properties: &Properties) -> (r: ChannelLayout)
    ensures
        r@ == layout_of(properties@),
        layout_fits(r@),
        total(r.inputs@) <= 512,
        total(r.outputs@) <= 512,
        1 <= r.inputs.len() <= MAX_STREAMS,
        1 <= r.outputs.len() <= MAX_STREAMS,
{
    let num_inputs = parse_num_streams(properties, "num_inputs");
    let num_outputs = parse_num_streams(properties, "num_outputs");
    let inputs = read_channels(properties, "input", num_inputs);
    let outputs = read_channels(properties, "output", num_outputs);
    proof {
        layouts_are_bounded(properties@);
    }
    ChannelLayout { inputs, outputs }
}

/// The routes that the properties ask for.
pub open spec fn routes_asked(p: PropertyMap) -> Seq<RouteInfo> {
    match crate::properties::text_property(p, "routing_matrix"@) {
        Some(json) => routes_in(json),
        None => Seq::empty(),
    }
}

/// The routes that the properties ask for.
pub fn parse_routing_matrix(properties: &Properties) -> (r: RoutingMatrix)
    ensures
        r@ == routes_asked(properties@),
{
    match properties.text("routing_matrix") {
        Some(json) => parse_routing_json(json.as_str()),
        None => RoutingMatrix::new(),
    }
}

/// The matrix that the properties ask for.
pub open spec fn matrix_asked(p: PropertyMap) -> Seq<Seq<bool>> {
    matrix_of(routes_asked(p), input_layout(p), output_layout(p))
}

/// The matrix that the properties of a block ask for.
pub fn matrix_from_properties(properties: &Properties) -> (r: Vec<Vec<bool>>)
    ensures
        plan::rows(r@) == matrix_asked(properties@),
{
    let layout = read_layout(properties);
    let routing = parse_routing_matrix(properties);
    build_matrix(&routing, &layout.inputs, &layout.outputs)
}

// ---------------------------------------------------------------------------
// Changes while the block runs
// ---------------------------------------------------------------------------

/// The layouts of the blocks that were built, by the id of the element that
/// mixes.
pub struct Layouts {
    pub entries: Vec<(String, ChannelLayout)>,
}

pub type LayoutMap = Seq<(Seq<char>, LayoutInfo)>;

impl View for Layouts {
    type V = LayoutMap;

    open spec fn view(&self) -> LayoutMap {
        self.entries@.map_values(|e: (String, ChannelLayout)| (e.0@, e.1@))
    }
}

/// The first entry from `i` on with the id.
pub open spec fn entry_from(known: LayoutMap, id: Seq<char>, i: int) -> Option<int>
    decreases known.len() - i,
{
    if i >= known.len() {
        None
    } else if known[i].0 == id {
        Some(i)
    } else {
        entry_from(known, id, i + 1)
    }
}

/// The layouts with the one under the id replaced, or added where there was
/// none.
pub open spec fn recorded(known: LayoutMap, id: Seq<char>, layout: LayoutInfo) -> LayoutMap {
    match entry_from(known, id, 0) {
        Some(i) => known.update(i, (id, layout)),
        None => known.push((id, layout)),
    }
}

/// Every layout can be made a matrix of.
pub open spec fn layouts_fit(known: LayoutMap) -> bool {
    forall|i: int| 0 <= i < known.len() ==> layout_fits((#[trigger] known[i]).1)
}

proof fn lemma_entry_from(known: LayoutMap, id: Seq<char>, i: int)
    requires
        0 <= i <= known.len(),
    ensures
        entry_from(known, id, i) matches Some(k) ==> i <= k < known.len() && known[k].0 == id
            && forall|j: int| i <= j < k ==> (#[trigger] known[j]).0 != id,
        entry_from(known, id, i) is None ==> forall|k: int|
            i <= k < known.len() ==> (#[trigger] known[k]).0 != id,
    decreases known.len() - i,
{
    if i < known.len() && known[i].0 != id {
        lemma_entry_from(known, id, i + 1);
    }
}

proof fn lemma_lookup_at(known: LayoutMap, id: Seq<char>, i: int, k: int)
    requires
        0 <= i <= k < known.len(),
        known[k].0 == id,
        forall|j: int| i <= j < k ==> (#[trigger] known[j]).0 != id,
    ensures
        text::lookup(known.skip(i), id) == Some(known[k].1),
    decreases k - i,
{
    text::lemma_lookup_skip(known, id, i);
    if i < k {
        lemma_lookup_at(known, id, i + 1, k);
    }
}

/// A recorded layout is found again, until the block is built anew.
pub proof fn recorded_layout_is_found(known: LayoutMap, id: Seq<char>, layout: LayoutInfo)
    ensures
        text::lookup(recorded(known, id, layout), id) == Some(layout),
        recorded(recorded(known, id, layout), id, layout).len() == recorded(
            known,
            id,
            layout,
        ).len(),
{
    let after = recorded(known, id, layout);
    lemma_entry_from(known, id, 0);
    let k = match entry_from(known, id, 0) {
        Some(k) => k,
        None => known.len() as int,
    };
    lemma_lookup_at(after, id, 0, k);
    assert(after.skip(0) =~= after);
    lemma_entry_from(after, id, 0);
    assert(after[k].0 == id);
}

impl Layouts {
    pub fn new() -> (r: Layouts)
        ensures
            r@ == Seq::<(Seq<char>, LayoutInfo)>::empty(),
            layouts_fit(r@),
    {
        let r = Layouts { entries: Vec::new() };
        assert(r@ =~= Seq::<(Seq<char>, LayoutInfo)>::empty());
        r
    }

    /// Records the layout of a block that was built.
    pub fn record_layout(&mut self, element_id: &str, layout: ChannelLayout)
        requires
            layouts_fit(old(self)@),
            layout_fits(layout@),
        ensures
            final(self)@ == recorded(old(self)@, element_id@, layout@),
            layouts_fit(final(self)@),
    {
        let ghost before = self@;
        let ghost shown = layout@;
        let mut i: usize = 0;
        while i < self.entries.len() && !text::same(self.entries[i].0.as_str(), element_id)
            invariant
                i <= self.entries.len(),
                self@ == before,
                before.len() == self.entries.len(),
                entry_from(before, element_id@, i as int) == entry_from(before, element_id@, 0),
            decreases self.entries.len() - i,
        {
            assert(before[i as int].0 == self.entries@[i as int].0@);
            i += 1;
        }
        if i < self.entries.len() {
            assert(before[i as int].0 == self.entries@[i as int].0@);
            assert(entry_from(before, element_id@, 0) == Some(i as int));
            self.entries.set(i, (element_id.to_owned(), layout));
            assert(self@ =~= before.update(i as int, (element_id@, shown)));
        } else {
            self.entries.push((element_id.to_owned(), layout));
            assert(self@ =~= before.push((element_id@, shown)));
        }
    }

    /// The layout recorded for an element.
    pub fn layout_for(&self, element_id: &str) -> (r: Option<&ChannelLayout>)
        requires
            layouts_fit(self@),
        ensures
            r matches Some(layout) ==> text::lookup(self@, element_id@) == Some(layout@)
                && layout_fits(layout@),
            r is None ==> text::lookup(self@, element_id@) is None,
    {
        let mut i: usize = 0;
        proof {
            assert(self@.skip(0) =~= self@);
        }
        while i < self.entries.len()
            invariant
                i <= self.entries.len(),
                self@.len() == self.entries.len(),
                layouts_fit(self@),
                text::lookup(self@.skip(i as int), element_id@) == text::lookup(
                    self@,
                    element_id@,
                ),
            decreases self.entries.len() - i,
        {
            proof {
                text::lemma_lookup_skip(self@, element_id@, i as int);
                assert(self@[i as int].1 == self.entries@[i as int].1@);
            }
            if text::same(self.entries[i].0.as_str(), element_id) {
                return Some(&self.entries[i].1);
            }
            i += 1;
        }
        None
    }
}

/// The matrix that a change of a property asks a running element for. Only a
/// text of routes for an element that mixes and whose layout is known asks for
/// any.
pub open spec fn live_matrix(
    known: LayoutMap,
    element_id: Seq<char>,
    property: Seq<char>,
    value: PropertyTree,
) -> Option<Seq<Seq<bool>>> {
    if property == "routing_matrix"@ && text::has_suffix(element_id, MATRIX_ELEMENT_ID_TAIL@) {
        match (value, text::lookup(known, element_id)) {
            (PropertyTree::Text(json), Some(layout)) => Some(
                matrix_of(routes_in(json), layout.inputs, layout.outputs),
            ),
            _ => None,
        }
    } else {
        None
    }
}

/// The matrix to give a running element when one of its properties changes,
/// where the change is one of routes.
pub fn try_apply_live_matrix(
    known: &Layouts,
    element_id: &str,
    prop_name: &str,
    value: &PropertyValue,
) -> (r: Option<Vec<Vec<bool>>>)
    requires
        layouts_fit(known@),
    ensures
        r matches Some(matrix) ==> live_matrix(known@, element_id@, prop_name@, value@) == Some(
            plan::rows(matrix@),
        ),
        r is None ==> live_matrix(known@, element_id@, prop_name@, value@) is None,
{
    if !text::same(prop_name, "routing_matrix") {
        return None;
    }
    if !text::ends_with(element_id, MATRIX_ELEMENT_ID_TAIL) {
        return None;
    }
    match value {
        PropertyValue::String(json) => match known.layout_for(element_id) {
            Some(layout) => {
                let routing = parse_routing_json(json.as_str());
                Some(build_matrix(&routing, &layout.inputs, &layout.outputs))
            },
            None => None,
        },
        _ => None,
    }
}

/// A block that is running is given the matrix that it would have been built
/// with, had it been built with the new routes.
pub proof fn live_change_is_as_if_built(
    known: LayoutMap,
    instance: Seq<char>,
    p: PropertyMap,
    routes: Seq<char>,
)
    requires
        crate::properties::text_property(p, "routing_matrix"@) == Some(routes),
    ensures
        live_matrix(
            recorded(known, instance + MATRIX_ELEMENT_ID_TAIL@, layout_of(p)),
            instance + MATRIX_ELEMENT_ID_TAIL@,
            "routing_matrix"@,
            PropertyTree::Text(routes),
        ) == Some(matrix_asked(p)),
{
    let id = instance + MATRIX_ELEMENT_ID_TAIL@;
    recorded_layout_is_found(known, id, layout_of(p));
    assert(id.subrange(instance.len() as int, id.len() as int) =~= MATRIX_ELEMENT_ID_TAIL@);
}

} // verus!
