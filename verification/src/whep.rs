//! Finding the WHEP endpoint that an output of a block ends up at, and the
//! vision mixer's control page.

use crate::flow;
use crate::flow::{BlockInfo, Flow};
use crate::gst_launch;
use crate::json;
use crate::json::{Json, JsonTree};
use crate::text;
use vstd::prelude::*;

verus! {

pub const WHEP_OUTPUT: &'static str = "builtin.whep_output";

pub const VISION_MIXER: &'static str = "builtin.vision_mixer";

/// The block that a connection leads to, if it leaves a pad.
pub open spec fn from_pad(pad: Seq<char>) -> spec_fn((Seq<char>, Seq<char>)) -> Option<Seq<char>> {
    |l: (Seq<char>, Seq<char>)|
        if l.0 == pad {
            Some(gst_launch::end_element(l.1))
        } else {
            None
        }
}

/// The block that a connection leads to, if it leaves a block.
pub open spec fn from_block(block: Seq<char>) -> spec_fn((Seq<char>, Seq<char>)) -> Option<
    Seq<char>,
> {
    |l: (Seq<char>, Seq<char>)|
        if text::has_prefix(l.0, block + ":"@) {
            Some(gst_launch::end_element(l.1))
        } else {
            None
        }
}

/// The blocks that connections out of a pad lead to, in order.
pub open spec fn blocks_behind_pad(
    links: Seq<(Seq<char>, Seq<char>)>,
    pad: Seq<char>,
) -> Seq<Seq<char>> {
    links.filter_map(from_pad(pad))
}

/// The blocks that connections out of a block lead to, in order.
pub open spec fn blocks_behind(
    links: Seq<(Seq<char>, Seq<char>)>,
    block: Seq<char>,
) -> Seq<Seq<char>> {
    links.filter_map(from_block(block))
}

pub open spec fn is_whep_output(blocks: Seq<BlockInfo>, id: Seq<char>) -> bool {
    exists|i: int|
        0 <= i < blocks.len() && (#[trigger] blocks[i]).id == id && blocks[i].block_definition_id
            == WHEP_OUTPUT@
}

/// The endpoint of the first block with an id.
pub open spec fn endpoint_of(blocks: Seq<BlockInfo>, id: Seq<char>) -> Option<Seq<char>> {
    match text::lookup(blocks.map_values(|b: BlockInfo| (b.id, b)), id) {
        Some(block) => block.whep_endpoint_id,
        None => None,
    }
}

/// A connection leads to a block.
pub open spec fn is_led_to(links: Seq<(Seq<char>, Seq<char>)>, block: Seq<char>) -> bool {
    exists|k: int|
        0 <= k < links.len() && gst_launch::end_element((#[trigger] links[k]).1) == block
}

pub open spec fn unvisited_links(
    links: Seq<(Seq<char>, Seq<char>)>,
    visited: Set<Seq<char>>,
) -> nat {
    links.filter(|l: (Seq<char>, Seq<char>)| !visited.contains(gst_launch::end_element(l.1))).len()
}

/// Coming to a block leaves fewer connections to follow.
pub proof fn lemma_unvisited_shrinks(
    links: Seq<(Seq<char>, Seq<char>)>,
    visited: Set<Seq<char>>,
    block: Seq<char>,
)
    requires
        is_led_to(links, block),
        !visited.contains(block),
    ensures
        unvisited_links(links, visited.insert(block)) < unvisited_links(links, visited),
{
    let more = visited.insert(block);
    let k = choose|k: int|
        0 <= k < links.len() && gst_launch::end_element((#[trigger] links[k]).1) == block;
    crate::sequences::lemma_filter_strict(
        links,
        |l: (Seq<char>, Seq<char>)| !visited.contains(gst_launch::end_element(l.1)),
        |l: (Seq<char>, Seq<char>)| !more.contains(gst_launch::end_element(l.1)),
        k,
    );
}

/// The first WHEP output that is come to from some blocks, where those behind a
/// block come before those beside it, and no block is come to twice.
pub open spec fn whep_output_behind(
    blocks: Seq<BlockInfo>,
    links: Seq<(Seq<char>, Seq<char>)>,
    ahead: Seq<Seq<char>>,
    visited: Set<Seq<char>>,
) -> Option<Seq<char>>
    decreases unvisited_links(links, visited), ahead.len(),
{
    if ahead.len() == 0 {
        None
    } else {
        let block = ahead[0];
        let beside = ahead.skip(1);
        if visited.contains(block) || !is_led_to(links, block) {
            whep_output_behind(blocks, links, beside, visited)
        } else if is_whep_output(blocks, block) {
            Some(block)
        } else {
            proof {
                lemma_unvisited_shrinks(links, visited, block);
            }
            whep_output_behind(
                blocks,
                links,
                blocks_behind(links, block) + beside,
                visited.insert(block),
            )
        }
    }
}

/// The WHEP output that is reached from a pad.
pub open spec fn reached_output(
    blocks: Seq<BlockInfo>,
    links: Seq<(Seq<char>, Seq<char>)>,
    pad: Seq<char>,
) -> Option<Seq<char>> {
    whep_output_behind(blocks, links, blocks_behind_pad(links, pad), Set::empty())
}

/// The path of the endpoint reached from a pad of a block, or nothing where no
/// WHEP output is reached, or one without an endpoint yet.
pub open spec fn endpoint_path(flow: Flow, block_id: Seq<char>, pad_name: Seq<char>) -> Seq<char> {
    let blocks = flow::block_infos(flow.blocks@);
    match reached_output(
        blocks,
        flow::link_ends(flow.links@),
        block_id + ":"@ + pad_name,
    ) {
        Some(output) => match endpoint_of(blocks, output) {
            Some(id) => "/whep/"@ + id,
            None => Seq::empty(),
        },
        None => Seq::empty(),
    }
}

fn target_block(to: &str) -> (r: String)
    ensures
        r@ == gst_launch::end_element(to@),
{
    let pieces = text::split_text(to, ':');
    assert(text::texts(pieces@)[0] == pieces@[0]@);
    pieces[0].clone()
}

fn find_behind_pad(flow: &Flow, pad: &str) -> (r: Vec<String>)
    ensures
        text::texts(r@) == blocks_behind_pad(flow::link_ends(flow.links@), pad@),
{
    let ghost all = flow::link_ends(flow.links@);
    let ghost pick = from_pad(pad@);
    let mut out: Vec<String> = Vec::new();
    let mut i: usize = 0;
    proof {
        assert(all.take(0) =~= Seq::<(Seq<char>, Seq<char>)>::empty());
        assert(text::texts(out@) =~= all.take(0).filter_map(pick));
    }
    while i < flow.links.len()
        invariant
            i <= flow.links.len(),
            all == flow::link_ends(flow.links@),
            pick == from_pad(pad@),
            text::texts(out@) == all.take(i as int).filter_map(pick),
        decreases flow.links.len() - i,
    {
        proof {
            all.lemma_filter_map_take_succ(pick, i as int);
            assert(all[i as int] == (flow.links@[i as int].from@, flow.links@[i as int].to@));
        }
        let ghost before = text::texts(out@);
        if text::same(flow.links[i].from.as_str(), pad) {
            let block = target_block(flow.links[i].to.as_str());
            let ghost shown = block@;
            out.push(block);
            assert(text::texts(out@) =~= before + seq![shown]);
        } else {
            assert(before =~= before + Seq::<Seq<char>>::empty());
        }
        i += 1;
    }
    proof {
        assert(all.take(all.len() as int) =~= all);
    }
    out
}

fn find_behind(flow: &Flow, block: &str) -> (r: Vec<String>)
    ensures
        text::texts(r@) == blocks_behind(flow::link_ends(flow.links@), block@),
{
    let ghost all = flow::link_ends(flow.links@);
    let ghost pick = from_block(block@);
    let prefix = block.to_owned().concat(":");
    let mut out: Vec<String> = Vec::new();
    let mut i: usize = 0;
    proof {
        assert(all.take(0) =~= Seq::<(Seq<char>, Seq<char>)>::empty());
        assert(text::texts(out@) =~= all.take(0).filter_map(pick));
    }
    while i < flow.links.len()
        invariant
            i <= flow.links.len(),
            all == flow::link_ends(flow.links@),
            prefix@ == block@ + ":"@,
            pick == from_block(block@),
            text::texts(out@) == all.take(i as int).filter_map(pick),
        decreases flow.links.len() - i,
    {
        proof {
            all.lemma_filter_map_take_succ(pick, i as int);
            assert(all[i as int] == (flow.links@[i as int].from@, flow.links@[i as int].to@));
        }
        let ghost before = text::texts(out@);
        if text::starts_with(flow.links[i].from.as_str(), prefix.as_str()) {
            let next = target_block(flow.links[i].to.as_str());
            let ghost shown = next@;
            out.push(next);
            assert(text::texts(out@) =~= before + seq![shown]);
        } else {
            assert(before =~= before + Seq::<Seq<char>>::empty());
        }
        i += 1;
    }
    proof {
        assert(all.take(all.len() as int) =~= all);
    }
    out
}

/// What connections of a pad or a block lead to is led to.
proof fn lemma_behind_is_led_to(
    links: Seq<(Seq<char>, Seq<char>)>,
    pick: spec_fn((Seq<char>, Seq<char>)) -> Option<Seq<char>>,
    i: int,
)
    requires
        0 <= i < links.filter_map(pick).len(),
        forall|l: (Seq<char>, Seq<char>)|
            #[trigger] pick(l) is Some ==> pick(l) == Some(gst_launch::end_element(l.1)),
    ensures
        is_led_to(links, links.filter_map(pick)[i]),
{
    let x = links.filter_map(pick)[i];
    assert(links.filter_map(pick).contains(x));
    links.lemma_filter_map_contains(pick, x);
    let l = choose|l: (Seq<char>, Seq<char>)| links.contains(l) && pick(l) == Some(x);
    let k = choose|k: int| 0 <= k < links.len() && links[k] == l;
    assert(gst_launch::end_element(links[k].1) == x);
}

proof fn lemma_all_led_to(links: Seq<(Seq<char>, Seq<char>)>, from: Seq<char>)
    ensures
        forall|i: int|
            0 <= i < blocks_behind_pad(links, from).len() ==> is_led_to(
                links,
                #[trigger] blocks_behind_pad(links, from)[i],
            ),
        forall|i: int|
            0 <= i < blocks_behind(links, from).len() ==> is_led_to(
                links,
                #[trigger] blocks_behind(links, from)[i],
            ),
{
    assert forall|i: int| 0 <= i < blocks_behind_pad(links, from).len() implies is_led_to(
        links,
        #[trigger] blocks_behind_pad(links, from)[i],
    ) by {
        lemma_behind_is_led_to(links, from_pad(from), i);
    }
    assert forall|i: int| 0 <= i < blocks_behind(links, from).len() implies is_led_to(
        links,
        #[trigger] blocks_behind(links, from)[i],
    ) by {
        lemma_behind_is_led_to(links, from_block(from), i);
    }
}

fn block_is_whep_output(flow: &Flow, id: &str) -> (r: bool)
    ensures
        r == is_whep_output(flow::block_infos(flow.blocks@), id@),
{
    let ghost all = flow::block_infos(flow.blocks@);
    let mut i: usize = 0;
    while i < flow.blocks.len()
        invariant
            i <= flow.blocks.len(),
            all == flow::block_infos(flow.blocks@),
            forall|j: int|
                0 <= j < i ==> !((#[trigger] all[j]).id == id@ && all[j].block_definition_id
                    == WHEP_OUTPUT@),
        decreases flow.blocks.len() - i,
    {
        assert(all[i as int] == flow.blocks@[i as int]@);
        if text::same(flow.blocks[i].id.as_str(), id) && text::same(
            flow.blocks[i].block_definition_id.as_str(),
            WHEP_OUTPUT,
        ) {
            return true;
        }
        i += 1;
    }
    false
}

fn find_endpoint(flow: &Flow, id: &str) -> (r: Option<String>)
    ensures
        r matches Some(s) ==> endpoint_of(flow::block_infos(flow.blocks@), id@) == Some(s@),
        r is None ==> endpoint_of(flow::block_infos(flow.blocks@), id@) is None,
{
    let ghost all = flow::block_infos(flow.blocks@).map_values(|b: BlockInfo| (b.id, b));
    let mut i: usize = 0;
    proof {
        assert(all.skip(0) =~= all);
    }
    while i < flow.blocks.len()
        invariant
            i <= flow.blocks.len(),
            all == flow::block_infos(flow.blocks@).map_values(|b: BlockInfo| (b.id, b)),
            text::lookup(all.skip(i as int), id@) == text::lookup(all, id@),
        decreases flow.blocks.len() - i,
    {
        proof {
            text::lemma_lookup_skip(all, id@, i as int);
            assert(all[i as int] == (flow.blocks@[i as int]@.id, flow.blocks@[i as int]@));
        }
        if text::same(flow.blocks[i].id.as_str(), id) {
            return match &flow.blocks[i].whep_endpoint_id {
                Some(endpoint) => Some(endpoint.clone()),
                None => None,
            };
        }
        i += 1;
    }
    None
}

/// Follows connections from a block's output pad until a WHEP output block is
/// reached, and gives the path of its endpoint, or an empty text where none is
/// found.
pub fn find_whep_endpoint_for_pad(flow: &Flow, block_id: &str, pad_name: &str) -> (r: String)
    ensures
        r@ == endpoint_path(*flow, block_id@, pad_name@),
{
    let ghost blocks = flow::block_infos(flow.blocks@);
    let ghost links = flow::link_ends(flow.links@);
    let start = block_id.to_owned().concat(":").concat(pad_name);
    let mut ahead = find_behind_pad(flow, start.as_str());
    let mut visited: Vec<String> = Vec::new();
    let ghost mut seen = Set::<Seq<char>>::empty();
    proof {
        lemma_all_led_to(links, start@);
    }
    while ahead.len() > 0
        invariant
            blocks == flow::block_infos(flow.blocks@),
            links == flow::link_ends(flow.links@),
            start@ == block_id@ + ":"@ + pad_name@,
            forall|id: Seq<char>|
                seen.contains(id) <==> #[trigger] text::texts(visited@).contains(id),
            forall|i: int|
                0 <= i < text::texts(ahead@).len() ==> is_led_to(
                    links,
                    #[trigger] text::texts(ahead@)[i],
                ),
            whep_output_behind(blocks, links, text::texts(ahead@), seen) == reached_output(
                blocks,
                links,
                start@,
            ),
        decreases unvisited_links(links, seen), ahead.len(),
    {
        let ghost todo = text::texts(ahead@);
        let block = ahead.remove(0);
        proof {
            assert(todo[0] == block@);
            assert(text::texts(ahead@) =~= todo.skip(1));
            assert(is_led_to(links, todo[0]));
            assert forall|i: int| 0 <= i < text::texts(ahead@).len() implies is_led_to(
                links,
                #[trigger] text::texts(ahead@)[i],
            ) by {
                assert(text::texts(ahead@)[i] == todo[i + 1]);
            }
        }
        if text::is_among(&visited, block.as_str()) {
            continue;
        }
        if block_is_whep_output(flow, block.as_str()) {
            return match find_endpoint(flow, block.as_str()) {
                Some(id) => "/whep/".to_owned().concat(id.as_str()),
                None => String::new(),
            };
        }
        let mut next = find_behind(flow, block.as_str());
        let ghost behind = text::texts(next@);
        let ghost beside = text::texts(ahead@);
        next.append(&mut ahead);
        proof {
            assert(text::texts(next@) =~= behind + beside);
            lemma_all_led_to(links, block@);
            assert forall|i: int| 0 <= i < text::texts(next@).len() implies is_led_to(
                links,
                #[trigger] text::texts(next@)[i],
            ) by {
                if i < behind.len() {
                    assert(text::texts(next@)[i] == behind[i]);
                } else {
                    assert(text::texts(next@)[i] == beside[i - behind.len()]);
                }
            }
            lemma_unvisited_shrinks(links, seen, block@);
        }
        ahead = next;
        let ghost before = text::texts(visited@);
        let ghost name = block@;
        visited.push(block);
        proof {
            let now = text::texts(visited@);
            let more = seen.insert(name);
            assert(now =~= before.push(name));
            assert forall|id: Seq<char>| more.contains(id) <==> #[trigger] now.contains(id) by {
                assert(seen.contains(id) <==> before.contains(id));
                if before.contains(id) {
                    let k = choose|k: int| 0 <= k < before.len() && before[k] == id;
                    assert(now[k] == id);
                }
                if id == name {
                    assert(now[before.len() as int] == id);
                }
                if now.contains(id) && id != name {
                    let k = choose|k: int| 0 <= k < now.len() && now[k] == id;
                    assert(before[k] == id);
                }
            }
            seen = more;
        }
    }
    String::new()
}

/// A route from some blocks to a WHEP output: each block is behind the one
/// before it, and only the last is a WHEP output.
pub open spec fn is_route(
    blocks: Seq<BlockInfo>,
    links: Seq<(Seq<char>, Seq<char>)>,
    ahead: Seq<Seq<char>>,
    route: Seq<Seq<char>>,
) -> bool {
    &&& route.len() > 0
    &&& ahead.contains(route[0])
    &&& is_led_to(links, route[0])
    &&& is_whep_output(blocks, route.last())
    &&& forall|i: int|
        0 <= i < route.len() - 1 ==> !is_whep_output(blocks, #[trigger] route[i]) && blocks_behind(
            links,
            route[i],
        ).contains(route[i + 1])
}

/// What is reached is reached on a route.
proof fn lemma_route_to_found(
    blocks: Seq<BlockInfo>,
    links: Seq<(Seq<char>, Seq<char>)>,
    ahead: Seq<Seq<char>>,
    visited: Set<Seq<char>>,
) -> (route: Seq<Seq<char>>)
    requires
        whep_output_behind(blocks, links, ahead, visited) is Some,
    ensures
        is_route(blocks, links, ahead, route),
        whep_output_behind(blocks, links, ahead, visited) == Some(route.last()),
    decreases unvisited_links(links, visited), ahead.len(),
{
    let block = ahead[0];
    let beside = ahead.skip(1);
    if visited.contains(block) || !is_led_to(links, block) {
        let route = lemma_route_to_found(blocks, links, beside, visited);
        let k = choose|k: int| 0 <= k < beside.len() && beside[k] == route[0];
        assert(ahead[k + 1] == route[0]);
        route
    } else if is_whep_output(blocks, block) {
        let route = seq![block];
        assert(ahead[0] == route[0]);
        route
    } else {
        lemma_unvisited_shrinks(links, visited, block);
        let behind = blocks_behind(links, block);
        let next = behind + beside;
        let rest = lemma_route_to_found(blocks, links, next, visited.insert(block));
        let k = choose|k: int| 0 <= k < next.len() && next[k] == rest[0];
        if k < behind.len() {
            let route = seq![block] + rest;
            assert(behind[k] == rest[0]);
            assert(ahead[0] == route[0]);
            assert(route.last() == rest.last());
            assert forall|i: int| 0 <= i < route.len() - 1 implies !is_whep_output(
                blocks,
                #[trigger] route[i],
            ) && blocks_behind(links, route[i]).contains(route[i + 1]) by {
                if i > 0 {
                    assert(route[i] == rest[i - 1]);
                    assert(route[i + 1] == rest[i]);
                } else {
                    assert(route[1] == rest[0]);
                }
            }
            route
        } else {
            assert(ahead[k - behind.len() + 1] == rest[0]);
            rest
        }
    }
}

/// The last place of a block on a route.
proof fn lemma_last_place(route: Seq<Seq<char>>, block: Seq<char>) -> (k: int)
    requires
        route.contains(block),
    ensures
        0 <= k < route.len(),
        route[k] == block,
        forall|i: int| k < i < route.len() ==> #[trigger] route[i] != block,
    decreases route.len(),
{
    if route.last() == block {
        route.len() - 1
    } else {
        let init = route.drop_last();
        let j = choose|j: int| 0 <= j < route.len() && route[j] == block;
        assert(init[j] == block);
        let k = lemma_last_place(init, block);
        assert forall|i: int| k < i < route.len() implies #[trigger] route[i] != block by {
            if i < init.len() {
                assert(init[i] == route[i]);
            }
        }
        k
    }
}

/// A route past what was come to before leads to something.
proof fn lemma_route_is_found(
    blocks: Seq<BlockInfo>,
    links: Seq<(Seq<char>, Seq<char>)>,
    ahead: Seq<Seq<char>>,
    visited: Set<Seq<char>>,
    route: Seq<Seq<char>>,
)
    requires
        is_route(blocks, links, ahead, route),
        forall|i: int| 0 <= i < route.len() ==> !visited.contains(#[trigger] route[i]),
    ensures
        whep_output_behind(blocks, links, ahead, visited) is Some,
    decreases unvisited_links(links, visited), ahead.len(),
{
    let block = ahead[0];
    let beside = ahead.skip(1);
    let at = choose|k: int| 0 <= k < ahead.len() && ahead[k] == route[0];
    if visited.contains(block) || !is_led_to(links, block) {
        assert(!visited.contains(route[0]));
        assert(beside[at - 1] == route[0]);
        lemma_route_is_found(blocks, links, beside, visited, route);
    } else if !is_whep_output(blocks, block) {
        lemma_unvisited_shrinks(links, visited, block);
        let behind = blocks_behind(links, block);
        let next = behind + beside;
        let more = visited.insert(block);
        if route.contains(block) {
            let k = lemma_last_place(route, block);
            assert(k < route.len() - 1);
            let rest = route.skip(k + 1);
            assert(blocks_behind(links, route[k]).contains(route[k + 1]));
            let j = choose|j: int| 0 <= j < behind.len() && behind[j] == rest[0];
            assert(next[j] == rest[0]);
            lemma_all_led_to(links, block);
            assert(is_led_to(links, behind[j]));
            assert forall|i: int| 0 <= i < rest.len() implies !more.contains(
                #[trigger] rest[i],
            ) by {
                assert(rest[i] == route[k + 1 + i]);
            }
            assert forall|i: int| 0 <= i < rest.len() - 1 implies !is_whep_output(
                blocks,
                #[trigger] rest[i],
            ) && blocks_behind(links, rest[i]).contains(rest[i + 1]) by {
                assert(rest[i] == route[k + 1 + i]);
                assert(rest[i + 1] == route[k + 1 + i + 1]);
            }
            lemma_route_is_found(blocks, links, next, more, rest);
        } else {
            assert(route.contains(route[0]));
            assert(beside[at - 1] == route[0]);
            assert(next[behind.len() + at - 1] == route[0]);
            assert forall|i: int| 0 <= i < route.len() implies !more.contains(
                #[trigger] route[i],
            ) by {
                assert(route.contains(route[i]));
            }
            lemma_route_is_found(blocks, links, next, more, route);
        }
    }
}

/// A WHEP output is reached from a pad exactly where there is a route to one,
/// whatever else the pad and the blocks on the way are connected to, and what
/// is reached is at the end of such a route.
pub proof fn output_is_reached_where_a_route_leads_to_one(
    blocks: Seq<BlockInfo>,
    links: Seq<(Seq<char>, Seq<char>)>,
    pad: Seq<char>,
)
    ensures
        reached_output(blocks, links, pad) is Some <==> exists|route: Seq<Seq<char>>|
            is_route(blocks, links, blocks_behind_pad(links, pad), route),
        reached_output(blocks, links, pad) matches Some(output) ==> exists|route: Seq<Seq<char>>|
            is_route(blocks, links, blocks_behind_pad(links, pad), route) && output
                == route.last(),
{
    let ahead = blocks_behind_pad(links, pad);
    if reached_output(blocks, links, pad) is Some {
        let route = lemma_route_to_found(blocks, links, ahead, Set::empty());
        assert(is_route(blocks, links, ahead, route));
    }
    if exists|route: Seq<Seq<char>>| is_route(blocks, links, ahead, route) {
        let route = choose|route: Seq<Seq<char>>| is_route(blocks, links, ahead, route);
        lemma_route_is_found(blocks, links, ahead, Set::empty(), route);
    }
}

// ---------------------------------------------------------------------------
// The vision mixer's page
// ---------------------------------------------------------------------------

/// The block is a vision mixer, and the one asked for where one is.
pub open spec fn is_mixer(block: BlockInfo, requested: Option<Seq<char>>) -> bool {
    block.block_definition_id == VISION_MIXER@ && (requested matches Some(id) ==> block.id == id)
}

/// The position of the first vision mixer, or of the one asked for.
pub open spec fn mixer_position(
    blocks: Seq<BlockInfo>,
    requested: Option<Seq<char>>,
    i: int,
) -> Option<int>
    decreases blocks.len() - i,
{
    if i >= blocks.len() {
        None
    } else if is_mixer(blocks[i], requested) {
        Some(i)
    } else {
        mixer_position(blocks, requested, i + 1)
    }
}

/// The position of the first vision mixer of a flow, or of the one asked for.
pub fn find_vision_mixer(flow: &Flow, requested: &Option<String>) -> (r: Option<usize>)
    ensures
        (match r {
            Some(i) => Some(i as int),
            None => None,
        }) == mixer_position(
            flow::block_infos(flow.blocks@),
            match *requested {
                Some(id) => Some(id@),
                None => None,
            },
            0,
        ),
        r matches Some(i) ==> i < flow.blocks.len(),
{
    let ghost all = flow::block_infos(flow.blocks@);
    let ghost want = match requested {
        Some(id) => Some(id@),
        None => None,
    };
    let mut i: usize = 0;
    while i < flow.blocks.len()
        invariant
            i <= flow.blocks.len(),
            all == flow::block_infos(flow.blocks@),
            want == (match *requested {
                Some(id) => Some(id@),
                None => None,
            }),
            mixer_position(all, want, i as int) == mixer_position(all, want, 0),
        decreases flow.blocks.len() - i,
    {
        let block = &flow.blocks[i];
        assert(all[i as int] == block@);
        let asked_for = match requested {
            Some(id) => text::same(block.id.as_str(), id.as_str()),
            None => true,
        };
        if asked_for && text::same(block.block_definition_id.as_str(), VISION_MIXER) {
            return Some(i);
        }
        i += 1;
    }
    None
}

pub const NO_MIXER_PAGE: &'static str =
    "<html><body>No vision mixer block found in this flow</body></html>";

/// What is shown for a flow that does not exist.
pub fn no_flow_page(flow_id: &str) -> (r: String)
    ensures
        r@ == "<html><body>Flow "@ + flow_id@ + " not found</body></html>"@,
{
    "<html><body>Flow ".to_owned().concat(flow_id).concat(" not found</body></html>")
}

/// The template with every occurrence of the mark, from position `i` on,
/// replaced.
pub open spec fn filled_from(
    template: Seq<char>,
    mark: Seq<char>,
    value: Seq<char>,
    i: int,
) -> Seq<char>
    decreases template.len() + 1 - i,
{
    match text::find_from(template, mark, i) {
        Some(k) => if i <= k && mark.len() > 0 && k + mark.len() <= template.len() {
            template.subrange(i, k) + value + filled_from(template, mark, value, k + mark.len())
        } else {
            template.skip(i)
        },
        None => template.skip(i),
    }
}

pub const CONFIG_MARK: &'static str = "{{VM_CONFIG_JSON}}";

/// The vision mixer's page with its configuration put in.
pub fn fill_page(template: &str, config: &str) -> (r: String)
    ensures
        r@ == filled_from(template@, CONFIG_MARK@, config@, 0),
{
    let v = text::chars_of(template);
    let ghost mark = CONFIG_MARK@;
    proof {
        reveal_strlit("{{VM_CONFIG_JSON}}");
    }
    let mut out: String = String::new();
    let mut i: usize = 0;
    loop
        invariant
            v@ == template@,
            mark == CONFIG_MARK@,
            mark.len() == 18,
            i <= v.len(),
            out@ + filled_from(template@, mark, config@, i as int) == filled_from(
                template@,
                mark,
                config@,
                0,
            ),
        decreases v.len() - i,
    {
        match text::find_text_from(&v, CONFIG_MARK, i) {
            Some(k) => {
                let head = text::text_between(&v, i, k);
                let ghost before = out@;
                let ghost rest = filled_from(template@, mark, config@, k + 18);
                out.append(head.as_str());
                out.append(config);
                proof {
                    assert(before + (template@.subrange(i as int, k as int) + config@ + rest)
                        =~= out@ + rest);
                }
                i = k + 18;
            },
            None => {
                let tail = text::text_between(&v, i, v.len());
                out.append(tail.as_str());
                assert(tail@ =~= template@.skip(i as int));
                return out;
            },
        }
    }
}

/// What a picture-in-picture shows: its background, and its zones and
/// transforms as documents.
pub struct PipPage {
    pub bg: Option<usize>,
    pub zones: Json,
    pub transforms: Json,
}

pub open spec fn number_tree(n: usize) -> JsonTree {
    JsonTree::PosInt(n as u64)
}

pub open spec fn optional_number(n: Option<usize>) -> JsonTree {
    match n {
        Some(n) => number_tree(n),
        None => JsonTree::Null,
    }
}

fn write_optional(n: Option<usize>) -> (r: Json)
    ensures
        r@ == optional_number(n),
{
    match n {
        Some(n) => Json::PosInt(n as u64),
        None => Json::Null,
    }
}

impl View for PipPage {
    type V = JsonTree;

    open spec fn view(&self) -> JsonTree {
        JsonTree::Object(
            seq![
                ("bg"@, optional_number(self.bg)),
                ("transforms"@, self.transforms@),
                ("zones"@, self.zones@),
            ],
        )
    }
}

impl PipPage {
    fn into_json(self) -> (r: Json)
        ensures
            r@ == self@,
    {
        let ghost shown = self@;
        let mut members: Vec<(String, Json)> = Vec::new();
        members.push(("bg".to_owned(), write_optional(self.bg)));
        members.push(("transforms".to_owned(), self.transforms));
        members.push(("zones".to_owned(), self.zones));
        let r = Json::Object(members);
        assert(r@->Object_0 =~= shown->Object_0);
        r
    }
}

/// What the properties of a vision mixer say about it.
pub struct MixerSettings {
    pub num_inputs: usize,
    pub input_labels: Vec<String>,
    pub num_dsk_inputs: usize,
    pub num_pips: usize,
    pub initial_pgm: usize,
    pub initial_pvw: usize,
    pub pgm_w: u32,
    pub pgm_h: u32,
    /// The pictures-in-picture of a mixer that does not run.
    pub pips: Vec<PipPage>,
}

/// The state of a vision mixer that runs.
pub struct LiveMixer {
    /// The input on programme; none where a picture-in-picture is.
    pub pgm_input: Option<usize>,
    pub pvw_input: Option<usize>,
    pub ftb_active: bool,
    pub dsk_enabled: Vec<bool>,
    /// How opaque the overlay is, as a number is written.
    pub overlay_alpha: String,
    pub pips: Vec<PipPage>,
    pub pvw_pip: Option<usize>,
    pub pgm_pip: Option<usize>,
}

pub open spec fn flag_list(flags: Seq<bool>) -> JsonTree {
    JsonTree::Array(flags.map_values(|b: bool| JsonTree::Bool(b)))
}

pub open spec fn label_list(labels: Seq<String>) -> JsonTree {
    JsonTree::Array(labels.map_values(|s: String| JsonTree::Text(s@)))
}

pub open spec fn pip_list(pips: Seq<PipPage>) -> JsonTree {
    JsonTree::Array(pips.map_values(|p: PipPage| p@))
}

/// What the page of a vision mixer is told: the state of the mixer where it runs,
/// or else what its properties say.
pub open spec fn page_config(
    flow_id: Seq<char>,
    block_id: Seq<char>,
    settings: MixerSettings,
    live: Option<LiveMixer>,
    input_resolutions: JsonTree,
) -> JsonTree {
    let pgm = match live {
        Some(state) => state.pgm_input,
        None => Some(settings.initial_pgm),
    };
    let pvw = match live {
        Some(state) => state.pvw_input,
        None => Some(settings.initial_pvw),
    };
    let dsk = match live {
        Some(state) => state.dsk_enabled@,
        None => Seq::new(settings.num_dsk_inputs as nat, |i: int| true),
    };
    let alpha = match live {
        Some(state) => state.overlay_alpha@,
        None => "1.0"@,
    };
    let pips = match live {
        Some(state) => state.pips@,
        None => settings.pips@,
    };
    JsonTree::Object(
        seq![
            ("block_id"@, JsonTree::Text(block_id)),
            ("dsk_states"@, flag_list(dsk)),
            ("flow_id"@, JsonTree::Text(flow_id)),
            ("ftb_active"@, JsonTree::Bool(live is Some && live->0.ftb_active)),
            ("initial_pgm"@, optional_number(pgm)),
            ("initial_pvw"@, optional_number(pvw)),
            ("input_labels"@, label_list(settings.input_labels@)),
            ("input_resolutions"@, input_resolutions),
            ("num_dsk_inputs"@, number_tree(settings.num_dsk_inputs)),
            ("num_inputs"@, number_tree(settings.num_inputs)),
            ("num_pips"@, number_tree(settings.num_pips)),
            ("overlay_alpha"@, JsonTree::Float(alpha)),
            ("pgm_h"@, JsonTree::PosInt(settings.pgm_h as u64)),
            (
                "pgm_pip"@,
                optional_number(
                    match live {
                        Some(state) => state.pgm_pip,
                        None => None,
                    },
                ),
            ),
            ("pgm_w"@, JsonTree::PosInt(settings.pgm_w as u64)),
            ("pips"@, pip_list(pips)),
            (
                "pvw_pip"@,
                optional_number(
                    match live {
                        Some(state) => state.pvw_pip,
                        None => None,
                    },
                ),
            ),
        ],
    )
}

fn write_flags(flags: &Vec<bool>) -> (r: Json)
    ensures
        r@ == flag_list(flags@),
{
    let mut items: Vec<Json> = Vec::new();
    let mut i: usize = 0;
    while i < flags.len()
        invariant
            i <= flags.len(),
            items.len() == i,
            forall|k: int| 0 <= k < i ==> (#[trigger] items@[k])@ == JsonTree::Bool(flags@[k]),
        decreases flags.len() - i,
    {
        items.push(Json::Bool(flags[i]));
        i += 1;
    }
    let r = Json::Array(items);
    assert(r@->Array_0 =~= flag_list(flags@)->Array_0);
    r
}

fn write_labels(labels: &Vec<String>) -> (r: Json)
    ensures
        r@ == label_list(labels@),
{
    let mut items: Vec<Json> = Vec::new();
    let mut i: usize = 0;
    while i < labels.len()
        invariant
            i <= labels.len(),
            items.len() == i,
            forall|k: int| 0 <= k < i ==> (#[trigger] items@[k])@ == JsonTree::Text(labels@[k]@),
        decreases labels.len() - i,
    {
        items.push(Json::Text(labels[i].clone()));
        i += 1;
    }
    let r = Json::Array(items);
    assert(r@->Array_0 =~= label_list(labels@)->Array_0);
    r
}

fn write_pips(pips: Vec<PipPage>) -> (r: Json)
    ensures
        r@ == pip_list(pips@),
{
    let ghost all = pips@;
    let mut rest = pips;
    let mut reversed: Vec<Json> = Vec::new();
    while rest.len() > 0
        invariant
            rest.len() <= all.len(),
            rest@ == all.take(rest.len() as int),
            reversed.len() == all.len() - rest.len(),
            forall|k: int|
                0 <= k < reversed.len() ==> (#[trigger] reversed@[k])@ == all[all.len() - 1 - k]@,
        decreases rest.len(),
    {
        if let Some(pip) = rest.pop() {
            assert(pip == all[rest.len() as int]);
            assert(rest@ =~= all.take(rest.len() as int));
            reversed.push(pip.into_json());
        }
    }
    let ghost whole = reversed@;
    let mut items: Vec<Json> = Vec::new();
    while reversed.len() > 0
        invariant
            whole.len() == all.len(),
            reversed.len() <= whole.len(),
            reversed@ == whole.take(reversed.len() as int),
            items.len() == whole.len() - reversed.len(),
            forall|k: int| 0 <= k < whole.len() ==> (#[trigger] whole[k])@ == all[all.len() - 1 - k]@,
            forall|k: int| 0 <= k < items.len() ==> (#[trigger] items@[k])@ == all[k]@,
        decreases reversed.len(),
    {
        if let Some(item) = reversed.pop() {
            assert(item == whole[reversed.len() as int]);
            assert(reversed@ =~= whole.take(reversed.len() as int));
            items.push(item);
        }
    }
    let r = Json::Array(items);
    assert(r@->Array_0 =~= pip_list(all)->Array_0);
    r
}

fn all_enabled(n: usize) -> (r: Vec<bool>)
    ensures
        r@ == Seq::new(n as nat, |i: int| true),
{
    let mut out: Vec<bool> = Vec::new();
    while out.len() < n
        invariant
            out.len() <= n,
            forall|k: int| 0 <= k < out.len() ==> #[trigger] out@[k],
        decreases n - out.len(),
    {
        out.push(true);
    }
    assert(out@ =~= Seq::new(n as nat, |i: int| true));
    out
}

/// What the page of a vision mixer is told.
pub fn mixer_config(
    flow_id: &str,
    block_id: &str,
    settings: MixerSettings,
    live: Option<LiveMixer>,
    input_resolutions: Json,
) -> (r: Json)
    ensures
        r@ == page_config(flow_id@, block_id@, settings, live, input_resolutions@),
{
    let ghost told = page_config(flow_id@, block_id@, settings, live, input_resolutions@);
    let MixerSettings {
        num_inputs,
        input_labels,
        num_dsk_inputs,
        num_pips,
        initial_pgm,
        initial_pvw,
        pgm_w,
        pgm_h,
        pips,
    } = settings;
    let state = match live {
        Some(state) => state,
        None => LiveMixer {
            pgm_input: Some(initial_pgm),
            pvw_input: Some(initial_pvw),
            ftb_active: false,
            dsk_enabled: all_enabled(num_dsk_inputs),
            overlay_alpha: "1.0".to_owned(),
            pips,
            pvw_pip: None,
            pgm_pip: None,
        },
    };
    let mut m: Vec<(String, Json)> = Vec::new();
    m.push(("block_id".to_owned(), Json::Text(block_id.to_owned())));
    m.push(("dsk_states".to_owned(), write_flags(&state.dsk_enabled)));
    m.push(("flow_id".to_owned(), Json::Text(flow_id.to_owned())));
    m.push(("ftb_active".to_owned(), Json::Bool(state.ftb_active)));
    m.push(("initial_pgm".to_owned(), write_optional(state.pgm_input)));
    m.push(("initial_pvw".to_owned(), write_optional(state.pvw_input)));
    m.push(("input_labels".to_owned(), write_labels(&input_labels)));
    m.push(("input_resolutions".to_owned(), input_resolutions));
    m.push(("num_dsk_inputs".to_owned(), Json::PosInt(num_dsk_inputs as u64)));
    m.push(("num_inputs".to_owned(), Json::PosInt(num_inputs as u64)));
    m.push(("num_pips".to_owned(), Json::PosInt(num_pips as u64)));
    m.push(("overlay_alpha".to_owned(), Json::Float(state.overlay_alpha)));
    m.push(("pgm_h".to_owned(), Json::PosInt(pgm_h as u64)));
    m.push(("pgm_pip".to_owned(), write_optional(state.pgm_pip)));
    m.push(("pgm_w".to_owned(), Json::PosInt(pgm_w as u64)));
    m.push(("pips".to_owned(), write_pips(state.pips)));
    m.push(("pvw_pip".to_owned(), write_optional(state.pvw_pip)));
    let r = Json::Object(m);
    proof {
        reveal_with_fuel(Json::tree, 2);
        assert(r@->Object_0 =~= told->Object_0);
    }
    r
}

/// The page to show, or the position of the vision mixer that it is about.
pub open spec fn page_subject(
    flow: Option<Flow>,
    flow_id: Seq<char>,
    requested: Option<Seq<char>>,
) -> Result<int, Seq<char>> {
    match flow {
        None => Err("<html><body>Flow "@ + flow_id + " not found</body></html>"@),
        Some(flow) => match mixer_position(flow::block_infos(flow.blocks@), requested, 0) {
            None => Err(NO_MIXER_PAGE@),
            Some(i) => Ok(i),
        },
    }
}

/// The position of the vision mixer whose page is asked for, or the page that
/// says what is not there.
pub fn render_vision_mixer_page(
    flow: &Option<Flow>,
    flow_id: &str,
    requested: &Option<String>,
) -> (r: Result<usize, String>)
    ensures
        match r {
            Ok(i) => page_subject(
                *flow,
                flow_id@,
                match *requested {
                    Some(id) => Some(id@),
                    None => None,
                },
            ) == Ok::<int, Seq<char>>(i as int) && i < flow->0.blocks.len(),
            Err(page) => page_subject(
                *flow,
                flow_id@,
                match *requested {
                    Some(id) => Some(id@),
                    None => None,
                },
            ) == Err::<int, Seq<char>>(page@),
        },
{
    match flow {
        None => Err(no_flow_page(flow_id)),
        Some(flow) => match find_vision_mixer(flow, requested) {
            None => Err(NO_MIXER_PAGE.to_owned()),
            Some(i) => Ok(i),
        },
    }
}

/// The endpoint of a vision mixer's multiview: not found where the flow or the
/// block is not there.
pub fn multiview_endpoint(flow: &Option<Flow>, block_id: &str) -> (r: Result<String, u16>)
    ensures
        match *flow {
            None => r == Err::<String, u16>(404),
            Some(f) => match mixer_position(flow::block_infos(f.blocks@), Some(block_id@), 0) {
                None => r == Err::<String, u16>(404),
                Some(_) => r matches Ok(s) && s@ == endpoint_path(f, block_id@, "multiview_out"@),
            },
        },
{
    match flow {
        None => Err(404),
        Some(flow) => {
            let wanted = Some(block_id.to_owned());
            match find_vision_mixer(flow, &wanted) {
                None => Err(404),
                Some(_) => Ok(find_whep_endpoint_for_pad(flow, block_id, "multiview_out")),
            }
        },
    }
}

/// The vision mixer's page with its configuration put in, or the configuration
/// back where it cannot be written.
pub fn render_page(template: &str, config: Json) -> (r: Result<String, Json>)
    ensures
        match r {
            Ok(page) => json::is_writable(config@, json::PLAIN_DEPTH as nat) && page@
                == filled_from(template@, CONFIG_MARK@, json::json_text(config@), 0),
            Err(back) => !json::is_writable(config@, json::PLAIN_DEPTH as nat) && back@ == config@,
        },
{
    match json::try_render(config) {
        Ok(written) => Ok(fill_page(template, written.as_str())),
        Err(back) => Err(back),
    }
}

/// A text comes before another one that has a later character where they first
/// differ.
proof fn lemma_earlier(a: Seq<char>, b: Seq<char>, k: int)
    requires
        0 <= k < a.len(),
        k < b.len(),
        forall|i: int| 0 <= i < k ==> a[i] == b[i],
        a[k] < b[k],
    ensures
        !text::no_later(b, a),
    decreases k,
{
    if k > 0 {
        let x = a.skip(1);
        let y = b.skip(1);
        assert forall|i: int| 0 <= i < k - 1 implies x[i] == y[i] by {
            assert(x[i] == a[i + 1] && y[i] == b[i + 1]);
        }
        lemma_earlier(x, y, k - 1);
    }
}

/// Names each of which comes before the next are all in order.
proof fn lemma_names_in_order(members: Seq<(Seq<char>, JsonTree)>, a: int, b: int)
    requires
        0 <= a < b < members.len(),
        forall|i: int|
            0 <= i < members.len() - 1 ==> !text::no_later(
                members[i + 1].0,
                (#[trigger] members[i]).0,
            ),
    ensures
        !text::no_later(members[b].0, members[a].0),
    decreases b - a,
{
    assert(!text::no_later(members[a + 1].0, members[a].0));
    if a + 1 < b {
        lemma_names_in_order(members, a + 1, b);
        text::lemma_no_later_total(members[a + 1].0, members[a].0);
        if text::no_later(members[b].0, members[a].0) {
            text::lemma_no_later_transitive(members[b].0, members[a].0, members[a + 1].0);
        }
    }
}

proof fn lemma_config_names(members: Seq<(Seq<char>, JsonTree)>)
    requires
        members.len() == 17,
        members[0].0 == "block_id"@,
        members[1].0 == "dsk_states"@,
        members[2].0 == "flow_id"@,
        members[3].0 == "ftb_active"@,
        members[4].0 == "initial_pgm"@,
        members[5].0 == "initial_pvw"@,
        members[6].0 == "input_labels"@,
        members[7].0 == "input_resolutions"@,
        members[8].0 == "num_dsk_inputs"@,
        members[9].0 == "num_inputs"@,
        members[10].0 == "num_pips"@,
        members[11].0 == "overlay_alpha"@,
        members[12].0 == "pgm_h"@,
        members[13].0 == "pgm_pip"@,
        members[14].0 == "pgm_w"@,
        members[15].0 == "pips"@,
        members[16].0 == "pvw_pip"@,
    ensures
        forall|i: int, j: int|
            0 <= i < j < members.len() ==> !text::no_later(
                (#[trigger] members[j]).0,
                (#[trigger] members[i]).0,
            ),
{
    reveal_strlit("block_id");
    reveal_strlit("dsk_states");
    reveal_strlit("flow_id");
    reveal_strlit("ftb_active");
    reveal_strlit("initial_pgm");
    reveal_strlit("initial_pvw");
    reveal_strlit("input_labels");
    reveal_strlit("input_resolutions");
    reveal_strlit("num_dsk_inputs");
    reveal_strlit("num_inputs");
    reveal_strlit("num_pips");
    reveal_strlit("overlay_alpha");
    reveal_strlit("pgm_h");
    reveal_strlit("pgm_pip");
    reveal_strlit("pgm_w");
    reveal_strlit("pips");
    reveal_strlit("pvw_pip");
    lemma_earlier("block_id"@, "dsk_states"@, 0);
    lemma_earlier("dsk_states"@, "flow_id"@, 0);
    lemma_earlier("flow_id"@, "ftb_active"@, 1);
    lemma_earlier("ftb_active"@, "initial_pgm"@, 0);
    lemma_earlier("initial_pgm"@, "initial_pvw"@, 9);
    lemma_earlier("initial_pvw"@, "input_labels"@, 2);
    lemma_earlier("input_labels"@, "input_resolutions"@, 6);
    lemma_earlier("input_resolutions"@, "num_dsk_inputs"@, 0);
    lemma_earlier("num_dsk_inputs"@, "num_inputs"@, 4);
    lemma_earlier("num_inputs"@, "num_pips"@, 4);
    lemma_earlier("num_pips"@, "overlay_alpha"@, 0);
    lemma_earlier("overlay_alpha"@, "pgm_h"@, 0);
    lemma_earlier("pgm_h"@, "pgm_pip"@, 4);
    lemma_earlier("pgm_pip"@, "pgm_w"@, 4);
    lemma_earlier("pgm_w"@, "pips"@, 1);
    lemma_earlier("pips"@, "pvw_pip"@, 1);
    assert forall|i: int, j: int| 0 <= i < j < members.len() implies !text::no_later(
        (#[trigger] members[j]).0,
        (#[trigger] members[i]).0,
    ) by {
        lemma_names_in_order(members, i, j);
    }
}

proof fn lemma_pip_is_writable(pip: PipPage)
    requires
        json::is_writable(pip.zones@, 97),
        json::is_writable(pip.transforms@, 97),
    ensures
        json::is_writable(pip@, 98),
{
    reveal_strlit("bg");
    reveal_strlit("transforms");
    reveal_strlit("zones");
    let members = pip@->Object_0;
    lemma_earlier("bg"@, "transforms"@, 0);
    lemma_earlier("transforms"@, "zones"@, 0);
    lemma_earlier("bg"@, "zones"@, 0);
    assert(json::is_writable(members[0].1, 97));
    assert(json::is_writable(members[1].1, 97));
    assert(json::is_writable(members[2].1, 97));
}

/// The configuration of a page can be written whenever the digits of its
/// overlay's opacity are those of a number and the documents in it can be
/// written.
pub proof fn page_config_is_writable(
    flow_id: Seq<char>,
    block_id: Seq<char>,
    settings: MixerSettings,
    live: Option<LiveMixer>,
    input_resolutions: JsonTree,
)
    requires
        json::is_writable(input_resolutions, 99),
        json::is_number_text(
            match live {
                Some(state) => state.overlay_alpha@,
                None => "1.0"@,
            },
        ),
        forall|i: int|
            #![trigger settings.pips@[i]]
            0 <= i < settings.pips@.len() ==> json::is_writable(settings.pips@[i].zones@, 97)
                && json::is_writable(settings.pips@[i].transforms@, 97),
        live matches Some(state) ==> forall|i: int|
            #![trigger state.pips@[i]]
            0 <= i < state.pips@.len() ==> json::is_writable(state.pips@[i].zones@, 97)
                && json::is_writable(state.pips@[i].transforms@, 97),
    ensures
        json::is_writable(
            page_config(flow_id, block_id, settings, live, input_resolutions),
            json::PLAIN_DEPTH as nat,
        ),
{
    let config = page_config(flow_id, block_id, settings, live, input_resolutions);
    let members = config->Object_0;
    let pips = match live {
        Some(state) => state.pips@,
        None => settings.pips@,
    };
    let listed = pip_list(pips);
    lemma_config_names(members);
    assert(json::is_writable(listed, 99)) by {
        assert forall|i: int| 0 <= i < listed->Array_0.len() implies json::is_writable(
            #[trigger] listed->Array_0[i],
            98,
        ) by {
            lemma_pip_is_writable(pips[i]);
            assert(listed->Array_0[i] == pips[i]@);
        }
    }
    assert(json::is_writable(members[1].1, 99)) by {
        let flags = members[1].1->Array_0;
        assert(forall|i: int|
            0 <= i < flags.len() ==> json::is_writable(#[trigger] flags[i], 98));
    }
    assert(json::is_writable(members[6].1, 99)) by {
        let labels = members[6].1->Array_0;
        assert(forall|i: int|
            0 <= i < labels.len() ==> json::is_writable(#[trigger] labels[i], 98));
    }
    assert forall|i: int| 0 <= i < members.len() implies json::is_writable(
        (#[trigger] members[i]).1,
        99,
    ) by {
        if i == 15 {
            assert(members[15].1 == listed);
        }
    }
}

} // verus!
