//! Pipelines in `gst-launch-1.0` syntax: writing a graph of elements as one,
//! and reading the graph off a parsed pipeline.

use crate::properties::PropertyValue;
use crate::properties::PropertyTree;
use crate::sequences;
use crate::text;
use vstd::prelude::*;

verus! {

// ---------------------------------------------------------------------------
// What is written
// ---------------------------------------------------------------------------

/// A property's value. A fractional number is held as it is written.
pub enum LaunchValue {
    Text(String),
    Int(i64),
    UInt(u64),
    Float(String),
    Bool(bool),
}

/// An element of a graph.
pub struct Element {
    pub id: String,
    pub element_type: String,
    pub properties: Vec<(String, LaunchValue)>,
}

/// A connection of a graph; each end is an element's id, with a pad's name
/// behind a colon where one is meant.
pub struct Link {
    pub from: String,
    pub to: String,
}

/// A value as it is written in a pipeline.
pub enum ValueInfo {
    Text(Seq<char>),
    Int(i64),
    UInt(u64),
    Float(Seq<char>),
    Bool(bool),
}

impl View for LaunchValue {
    type V = ValueInfo;

    open spec fn view(&self) -> ValueInfo {
        match self {
            LaunchValue::Text(s) => ValueInfo::Text(s@),
            LaunchValue::Int(n) => ValueInfo::Int(*n),
            LaunchValue::UInt(n) => ValueInfo::UInt(*n),
            LaunchValue::Float(s) => ValueInfo::Float(s@),
            LaunchValue::Bool(b) => ValueInfo::Bool(*b),
        }
    }
}

/// What an element is.
pub struct ElementInfo {
    pub id: Seq<char>,
    pub element_type: Seq<char>,
    pub properties: Seq<(Seq<char>, ValueInfo)>,
}

impl View for Element {
    type V = ElementInfo;

    open spec fn view(&self) -> ElementInfo {
        ElementInfo {
            id: self.id@,
            element_type: self.element_type@,
            properties: self.properties@.map_values(|p: (String, LaunchValue)| (p.0@, p.1@)),
        }
    }
}

pub open spec fn element_infos(v: Seq<Element>) -> Seq<ElementInfo> {
    v.map_values(|e: Element| e@)
}

pub open spec fn link_infos(v: Seq<Link>) -> Seq<(Seq<char>, Seq<char>)> {
    v.map_values(|l: Link| (l.from@, l.to@))
}

/// The text with a backslash before every double quote.
pub open spec fn escaped(s: Seq<char>) -> Seq<char>
    decreases s.len(),
{
    if s.len() == 0 {
        Seq::empty()
    } else {
        escaped(s.drop_last()) + if s.last() == '"' {
            seq!['\\', '"']
        } else {
            seq![s.last()]
        }
    }
}

/// The text as a value: in quotes where it holds a space, an exclamation mark
/// or an equals sign.
pub open spec fn quoted(s: Seq<char>) -> Seq<char> {
    if s.contains(' ') || s.contains('!') || s.contains('=') {
        "\""@ + escaped(s) + "\""@
    } else {
        s
    }
}

pub open spec fn value_text(value: ValueInfo) -> Seq<char> {
    match value {
        ValueInfo::Text(s) => quoted(s),
        ValueInfo::Int(n) => text::decimal_int(n as int),
        ValueInfo::UInt(n) => text::decimal(n as nat),
        ValueInfo::Float(s) => s,
        ValueInfo::Bool(b) => if b {
            "true"@
        } else {
            "false"@
        },
    }
}

/// The words that an element is written as: its type, its name where others
/// refer to it, and its properties.
pub open spec fn element_words(e: ElementInfo, named: bool) -> Seq<Seq<char>> {
    seq![e.element_type] + (if named {
        seq!["name="@ + e.id]
    } else {
        Seq::empty()
    }) + e.properties.map_values(|p: (Seq<char>, ValueInfo)| p.0 + "="@ + value_text(p.1))
}

pub open spec fn element_text(e: ElementInfo, named: bool) -> Seq<char> {
    text::join(element_words(e, named), " "@)
}

fn holds_special(v: &Vec<char>) -> (r: bool)
    ensures
        r == (v@.contains(' ') || v@.contains('!') || v@.contains('=')),
{
    let mut i: usize = 0;
    while i < v.len()
        invariant
            i <= v.len(),
            forall|j: int| 0 <= j < i ==> v@[j] != ' ' && v@[j] != '!' && v@[j] != '=',
        decreases v.len() - i,
    {
        if v[i] == ' ' || v[i] == '!' || v[i] == '=' {
            assert(v@.contains(v@[i as int]));
            return true;
        }
        i += 1;
    }
    false
}

fn quote(s: &str) -> (r: String)
    ensures
        r@ == quoted(s@),
{
    let v = text::chars_of(s);
    if !holds_special(&v) {
        return s.to_owned();
    }
    let mut inner: String = String::new();
    let mut i: usize = 0;
    proof {
        assert(v@.take(0) =~= Seq::<char>::empty());
    }
    while i < v.len()
        invariant
            i <= v.len(),
            inner@ == escaped(v@.take(i as int)),
        decreases v.len() - i,
    {
        let c = v[i];
        let ghost before = inner@;
        proof {
            assert(v@.take(i + 1).drop_last() =~= v@.take(i as int));
            assert(v@.take(i + 1).last() == c);
        }
        if c == '"' {
            inner.push('\\');
            inner.push('"');
            assert(inner@ =~= before + seq!['\\', '"']);
        } else {
            inner.push(c);
            assert(inner@ =~= before + seq![c]);
        }
        i += 1;
    }
    proof {
        assert(v@.take(v@.len() as int) =~= v@);
    }
    "\"".to_owned().concat(inner.as_str()).concat("\"")
}

fn write_value(value: &LaunchValue) -> (r: String)
    ensures
        r@ == value_text(value@),
{
    match value {
        LaunchValue::Text(s) => quote(s.as_str()),
        LaunchValue::Int(n) => text::i64_text(*n),
        LaunchValue::UInt(n) => text::u64_text(*n),
        LaunchValue::Float(s) => s.clone(),
        LaunchValue::Bool(b) => if *b {
            "true".to_owned()
        } else {
            "false".to_owned()
        },
    }
}

/// Writes one element with its properties.
pub fn format_element(elem: &Element, include_name: bool) -> (r: String)
    ensures
        r@ == element_text(elem@, include_name),
{
    let mut parts: Vec<String> = Vec::new();
    parts.push(elem.element_type.clone());
    if include_name {
        parts.push("name=".to_owned().concat(elem.id.as_str()));
    }
    let ghost head = text::texts(parts@);
    let ghost props = elem@.properties.map_values(
        |p: (Seq<char>, ValueInfo)| p.0 + "="@ + value_text(p.1),
    );
    let mut i: usize = 0;
    proof {
        assert(head =~= seq![elem@.element_type] + (if include_name {
            seq!["name="@ + elem@.id]
        } else {
            Seq::empty()
        }));
        assert(text::texts(parts@) =~= head + props.take(0));
    }
    while i < elem.properties.len()
        invariant
            i <= elem.properties.len(),
            props == elem@.properties.map_values(
                |p: (Seq<char>, ValueInfo)| p.0 + "="@ + value_text(p.1),
            ),
            text::texts(parts@) == head + props.take(i as int),
        decreases elem.properties.len() - i,
    {
        let value = write_value(&elem.properties[i].1);
        let word = elem.properties[i].0.clone().concat("=").concat(value.as_str());
        let ghost before = text::texts(parts@);
        let ghost shown = word@;
        parts.push(word);
        proof {
            assert(props[i as int] == shown);
            assert(text::texts(parts@) =~= before.push(shown));
            assert(text::texts(parts@) =~= head + props.take(i + 1));
        }
        i += 1;
    }
    proof {
        assert(head + props.take(props.len() as int) =~= element_words(elem@, include_name));
    }
    text::join_texts(&parts, " ")
}

// ---------------------------------------------------------------------------
// The graph
// ---------------------------------------------------------------------------

/// The element that an end of a connection is at.
pub open spec fn end_element(end: Seq<char>) -> Seq<char> {
    text::split(end, ':')[0]
}

/// The elements that an element's connections lead to, in order.
pub open spec fn targets(links: Seq<(Seq<char>, Seq<char>)>, id: Seq<char>) -> Seq<Seq<char>> {
    links.filter_map(
        |l: (Seq<char>, Seq<char>)|
            if end_element(l.0) == id {
                Some(end_element(l.1))
            } else {
                None
            },
    )
}

/// The elements that connections to an element come from, in order.
pub open spec fn origins(links: Seq<(Seq<char>, Seq<char>)>, id: Seq<char>) -> Seq<Seq<char>> {
    links.filter_map(
        |l: (Seq<char>, Seq<char>)|
            if end_element(l.1) == id {
                Some(end_element(l.0))
            } else {
                None
            },
    )
}

/// An element that others have to refer to: several connections leave it or
/// lead to it.
pub open spec fn is_named(links: Seq<(Seq<char>, Seq<char>)>, id: Seq<char>) -> bool {
    targets(links, id).len() > 1 || origins(links, id).len() > 1
}

/// The position of the last element with an id.
pub open spec fn position_of(elements: Seq<ElementInfo>, id: Seq<char>) -> Option<int>
    decreases elements.len(),
{
    if elements.len() == 0 {
        None
    } else if elements.last().id == id {
        Some(elements.len() - 1)
    } else {
        position_of(elements.drop_last(), id)
    }
}

/// What stands in a chain of a pipeline.
pub enum Node {
    /// The element at a position, with its name or without.
    Element(int, bool),
    /// The element with an id, which is written somewhere else.
    Reference(Seq<char>),
}

/// Elements one after another, each connected to the next.
pub type Chain = Seq<Node>;

/// The element that is meant.
pub open spec fn node_id(elements: Seq<ElementInfo>, node: Node) -> Seq<char> {
    match node {
        Node::Element(i, _) => elements[i].id,
        Node::Reference(id) => id,
    }
}

/// What a chain starts with.
pub open spec fn start_text(elements: Seq<ElementInfo>, node: Node) -> Seq<char> {
    match node {
        Node::Element(i, named) => element_text(elements[i], named),
        Node::Reference(id) => id + "."@,
    }
}

/// What a connection leads to.
pub open spec fn step_text(elements: Seq<ElementInfo>, node: Node) -> Seq<char> {
    match node {
        Node::Element(i, named) => element_text(elements[i], named),
        Node::Reference(id) => id + ". "@,
    }
}

pub open spec fn chain_text(elements: Seq<ElementInfo>, chain: Chain) -> Seq<char>
    decreases chain.len(),
{
    if chain.len() == 0 {
        Seq::empty()
    } else if chain.len() == 1 {
        start_text(elements, chain[0])
    } else {
        chain_text(elements, chain.drop_last()) + " ! "@ + step_text(elements, chain.last())
    }
}

/// What starts a new line of a pipeline.
pub open spec fn line_break(out: Seq<char>) -> Seq<char> {
    if out.len() > 0 {
        " \\\n  "@
    } else {
        Seq::empty()
    }
}

/// Chains as they are written, each on a line of its own.
pub open spec fn chains_text(elements: Seq<ElementInfo>, chains: Seq<Chain>) -> Seq<char>
    decreases chains.len(),
{
    if chains.len() == 0 {
        Seq::empty()
    } else {
        let before = chains_text(elements, chains.drop_last());
        before + line_break(before) + chain_text(elements, chains.last())
    }
}

/// Where writing a graph has got to.
pub struct Walk {
    /// The ids of the elements that are written.
    pub visited: Set<Seq<char>>,
    /// What is written.
    pub chains: Seq<Chain>,
    /// Connections to write later: the element that they leave, and where they
    /// lead.
    pub pending: Seq<(Seq<char>, Seq<char>)>,
}

pub open spec fn unvisited(elements: Seq<ElementInfo>, visited: Set<Seq<char>>) -> nat {
    elements.filter(|e: ElementInfo| !visited.contains(e.id)).len()
}

/// Writing an element leaves fewer to write.
pub proof fn lemma_filter_shrinks(
    elements: Seq<ElementInfo>,
    visited: Set<Seq<char>>,
    i: int,
)
    requires
        0 <= i < elements.len(),
        !visited.contains(elements[i].id),
    ensures
        unvisited(elements, visited.insert(elements[i].id)) < unvisited(elements, visited),
{
    let more = visited.insert(elements[i].id);
    sequences::lemma_filter_strict(
        elements,
        |e: ElementInfo| !visited.contains(e.id),
        |e: ElementInfo| !more.contains(e.id),
        i,
    );
}

/// Writing more leaves no more to write.
pub proof fn lemma_unvisited_shrinks(
    elements: Seq<ElementInfo>,
    visited: Set<Seq<char>>,
    more: Set<Seq<char>>,
)
    requires
        visited.subset_of(more),
    ensures
        unvisited(elements, more) <= unvisited(elements, visited),
{
    sequences::lemma_filter_weaker(
        elements,
        |e: ElementInfo| !visited.contains(e.id),
        |e: ElementInfo| !more.contains(e.id),
    );
}

/// What is found under an id has it.
pub proof fn lemma_position_of(elements: Seq<ElementInfo>, id: Seq<char>)
    ensures
        match position_of(elements, id) {
            Some(i) => 0 <= i < elements.len() && elements[i].id == id,
            None => forall|i: int| 0 <= i < elements.len() ==> (#[trigger] elements[i]).id != id,
        },
    decreases elements.len(),
{
    if elements.len() > 0 {
        let init = elements.drop_last();
        lemma_position_of(init, id);
        if position_of(elements, id) is None {
            assert forall|i: int| 0 <= i < elements.len() implies (#[trigger] elements[i]).id
                != id by {
                if i < init.len() {
                    assert(init[i] == elements[i]);
                }
            }
        }
    }
}

/// What is marked as written when a node is.
pub open spec fn marked(
    elements: Seq<ElementInfo>,
    visited: Set<Seq<char>>,
    node: Node,
) -> Set<Seq<char>> {
    match node {
        Node::Element(i, _) => visited.insert(elements[i].id),
        Node::Reference(_) => visited,
    }
}

/// The walk with a node that starts a new chain.
pub open spec fn started(elements: Seq<ElementInfo>, walk: Walk, node: Node) -> Walk {
    Walk {
        visited: marked(elements, walk.visited, node),
        chains: walk.chains.push(seq![node]),
        ..walk
    }
}

/// The walk with a node that the last one is connected to.
pub open spec fn stepped(elements: Seq<ElementInfo>, walk: Walk, node: Node) -> Walk {
    Walk {
        visited: marked(elements, walk.visited, node),
        chains: walk.chains.drop_last().push(walk.chains.last().push(node)),
        ..walk
    }
}

/// The connections that leave an element, in order.
pub open spec fn leaving(links: Seq<(Seq<char>, Seq<char>)>, id: Seq<char>) -> Seq<
    (Seq<char>, Seq<char>),
> {
    targets(links, id).map_values(|t: Seq<char>| (id, t))
}

/// The walk with the connections of an element but the first kept for later.
pub open spec fn with_branches(
    links: Seq<(Seq<char>, Seq<char>)>,
    id: Seq<char>,
    walk: Walk,
) -> Walk {
    let all = leaving(links, id);
    Walk {
        pending: if all.len() > 1 {
            walk.pending + all.skip(1)
        } else {
            walk.pending
        },
        ..walk
    }
}

/// The walk after a chain is followed on from the element at position `i`,
/// which was just written: along first connections until there is none, or
/// until one leads to an element that is written already. `None` where a
/// connection leads to no element.
pub open spec fn followed(
    elements: Seq<ElementInfo>,
    links: Seq<(Seq<char>, Seq<char>)>,
    i: int,
    walk: Walk,
) -> Option<Walk>
    decreases unvisited(elements, walk.visited),
{
    let ahead = targets(links, elements[i].id);
    let kept = with_branches(links, elements[i].id, walk);
    if ahead.len() == 0 {
        Some(kept)
    } else if walk.visited.contains(ahead[0]) {
        Some(stepped(elements, kept, Node::Reference(ahead[0])))
    } else {
        match position_of(elements, ahead[0]) {
            None => None,
            Some(j) => {
                proof {
                    lemma_position_of(elements, ahead[0]);
                    lemma_filter_shrinks(elements, walk.visited, j);
                }
                followed(
                    elements,
                    links,
                    j,
                    stepped(elements, kept, Node::Element(j, is_named(links, elements[j].id))),
                )
            },
        }
    }
}

/// Following a chain unmarks nothing.
pub proof fn lemma_followed_grows(
    elements: Seq<ElementInfo>,
    links: Seq<(Seq<char>, Seq<char>)>,
    i: int,
    walk: Walk,
)
    ensures
        followed(elements, links, i, walk) matches Some(after) ==> walk.visited.subset_of(
            after.visited,
        ),
    decreases unvisited(elements, walk.visited),
{
    let ahead = targets(links, elements[i].id);
    let kept = with_branches(links, elements[i].id, walk);
    if ahead.len() > 0 && !walk.visited.contains(ahead[0]) {
        if let Some(j) = position_of(elements, ahead[0]) {
            lemma_position_of(elements, ahead[0]);
            lemma_filter_shrinks(elements, walk.visited, j);
            lemma_followed_grows(
                elements,
                links,
                j,
                stepped(elements, kept, Node::Element(j, is_named(links, elements[j].id))),
            );
        }
    }
}

/// The walk after every connection that was kept for later is written, those
/// too that are kept meanwhile.
pub open spec fn after_pending(
    elements: Seq<ElementInfo>,
    links: Seq<(Seq<char>, Seq<char>)>,
    walk: Walk,
) -> Option<Walk>
    decreases unvisited(elements, walk.visited), walk.pending.len(),
{
    if walk.pending.len() == 0 {
        Some(walk)
    } else {
        let (from, to) = walk.pending[0];
        let begun = started(
            elements,
            Walk { pending: walk.pending.skip(1), ..walk },
            Node::Reference(from),
        );
        if walk.visited.contains(to) {
            after_pending(elements, links, stepped(elements, begun, Node::Reference(to)))
        } else {
            match position_of(elements, to) {
                None => None,
                Some(j) => {
                    let onto = stepped(
                        elements,
                        begun,
                        Node::Element(j, is_named(links, elements[j].id)),
                    );
                    match followed(elements, links, j, onto) {
                        None => None,
                        Some(next) => {
                            proof {
                                lemma_position_of(elements, to);
                                lemma_filter_shrinks(elements, walk.visited, j);
                                lemma_followed_grows(elements, links, j, onto);
                                lemma_unvisited_shrinks(elements, onto.visited, next.visited);
                            }
                            after_pending(elements, links, next)
                        },
                    }
                },
            }
        }
    }
}

/// A connection leads from an element of the graph to an id.
pub open spec fn led_to(
    elements: Seq<ElementInfo>,
    links: Seq<(Seq<char>, Seq<char>)>,
    id: Seq<char>,
) -> bool {
    exists|k: int|
        0 <= k < links.len() && end_element((#[trigger] links[k]).1) == id && position_of(
            elements,
            end_element(links[k].0),
        ) is Some
}

/// An element that starts a chain and that others have to refer to: several
/// connections leave it, or one leads to it after all.
pub open spec fn is_named_start(
    elements: Seq<ElementInfo>,
    links: Seq<(Seq<char>, Seq<char>)>,
    id: Seq<char>,
) -> bool {
    targets(links, id).len() > 1 || led_to(elements, links, id)
}

/// The walk after a chain from the element at position `i`.
pub open spec fn after_start(
    elements: Seq<ElementInfo>,
    links: Seq<(Seq<char>, Seq<char>)>,
    i: int,
    walk: Walk,
) -> Option<Walk> {
    followed(
        elements,
        links,
        i,
        started(
            elements,
            walk,
            Node::Element(i, is_named_start(elements, links, elements[i].id)),
        ),
    )
}

/// The walk after the chains from the sources among the first `n` elements.
pub open spec fn after_sources(
    elements: Seq<ElementInfo>,
    links: Seq<(Seq<char>, Seq<char>)>,
    n: int,
) -> Option<Walk>
    decreases n,
{
    if n <= 0 {
        Some(Walk { visited: Set::empty(), chains: Seq::empty(), pending: Seq::empty() })
    } else {
        match after_sources(elements, links, n - 1) {
            None => None,
            Some(walk) => if origins(links, elements[n - 1].id).len() > 0 || walk.visited.contains(
                elements[n - 1].id,
            ) {
                Some(walk)
            } else {
                after_start(elements, links, n - 1, walk)
            },
        }
    }
}

/// The walk after those of the first `n` elements that no source leads to: each
/// starts a chain, unless it was written since.
pub open spec fn after_rest(
    elements: Seq<ElementInfo>,
    links: Seq<(Seq<char>, Seq<char>)>,
    walk: Walk,
    n: int,
) -> Option<Walk>
    decreases n,
{
    if n <= 0 {
        Some(walk)
    } else {
        match after_rest(elements, links, walk, n - 1) {
            None => None,
            Some(now) => if now.visited.contains(elements[n - 1].id) {
                Some(now)
            } else {
                match after_start(elements, links, n - 1, now) {
                    None => None,
                    Some(next) => after_pending(elements, links, next),
                }
            },
        }
    }
}

/// The whole walk over a graph.
pub open spec fn full_walk(
    elements: Seq<ElementInfo>,
    links: Seq<(Seq<char>, Seq<char>)>,
) -> Option<Walk> {
    match after_sources(elements, links, elements.len() as int) {
        None => None,
        Some(walk) => match after_pending(elements, links, walk) {
            None => None,
            Some(walk) => after_rest(elements, links, walk, elements.len() as int),
        },
    }
}

/// A graph in `gst-launch-1.0` syntax. `None` where a connection leads from an
/// element to something that is none.
pub open spec fn pipeline_text(
    elements: Seq<ElementInfo>,
    links: Seq<(Seq<char>, Seq<char>)>,
) -> Option<Seq<char>> {
    match full_walk(elements, links) {
        None => None,
        Some(walk) => Some(chains_text(elements, walk.chains)),
    }
}

// ---------------------------------------------------------------------------
// Walking
// ---------------------------------------------------------------------------

/// Where writing a graph has got to.
struct Progress {
    visited: Vec<String>,
    out: String,
    pending: Vec<(String, String)>,
}

spec fn pending_texts(v: Seq<(String, String)>) -> Seq<(Seq<char>, Seq<char>)> {
    v.map_values(|p: (String, String)| (p.0@, p.1@))
}

/// The progress is that of the walk.
spec fn tracks(progress: Progress, elements: Seq<ElementInfo>, walk: Walk) -> bool {
    &&& forall|id: Seq<char>|
        walk.visited.contains(id) <==> #[trigger] text::texts(progress.visited@).contains(id)
    &&& progress.out@ == chains_text(elements, walk.chains)
    &&& pending_texts(progress.pending@) == walk.pending
}

/// A chain has been started.
spec fn is_begun(walk: Walk) -> bool {
    walk.chains.len() > 0 && walk.chains.last().len() > 0
}

fn first_piece(end: &str) -> (r: String)
    ensures
        r@ == end_element(end@),
{
    let pieces = text::split_text(end, ':');
    assert(text::texts(pieces@)[0] == pieces@[0]@);
    pieces[0].clone()
}

fn targets_of(links: &Vec<Link>, id: &str) -> (r: Vec<String>)
    ensures
        text::texts(r@) == targets(link_infos(links@), id@),
{
    let ghost all = link_infos(links@);
    let ghost pick = |l: (Seq<char>, Seq<char>)|
        if end_element(l.0) == id@ {
            Some(end_element(l.1))
        } else {
            None
        };
    let mut out: Vec<String> = Vec::new();
    let mut i: usize = 0;
    proof {
        assert(all.take(0) =~= Seq::<(Seq<char>, Seq<char>)>::empty());
        assert(text::texts(out@) =~= all.take(0).filter_map(pick));
    }
    while i < links.len()
        invariant
            i <= links.len(),
            all == link_infos(links@),
            pick == (|l: (Seq<char>, Seq<char>)|
                if end_element(l.0) == id@ {
                    Some(end_element(l.1))
                } else {
                    None
                }),
            text::texts(out@) == all.take(i as int).filter_map(pick),
        decreases links.len() - i,
    {
        proof {
            all.lemma_filter_map_take_succ(pick, i as int);
            assert(all[i as int] == (links@[i as int].from@, links@[i as int].to@));
        }
        let ghost before = text::texts(out@);
        let from = first_piece(links[i].from.as_str());
        if text::same(from.as_str(), id) {
            let to = first_piece(links[i].to.as_str());
            let ghost shown = to@;
            out.push(to);
            assert(text::texts(out@) =~= before + seq![shown]);
        } else {
            assert(before =~= before + Seq::<Seq<char>>::empty());
        }
        i += 1;
    }
    proof {
        assert(all.take(all.len() as int) =~= all);
    }
    out
}

fn origins_of(links: &Vec<Link>, id: &str) -> (r: Vec<String>)
    ensures
        text::texts(r@) == origins(link_infos(links@), id@),
{
    let ghost all = link_infos(links@);
    let ghost pick = |l: (Seq<char>, Seq<char>)|
        if end_element(l.1) == id@ {
            Some(end_element(l.0))
        } else {
            None
        };
    let mut out: Vec<String> = Vec::new();
    let mut i: usize = 0;
    proof {
        assert(all.take(0) =~= Seq::<(Seq<char>, Seq<char>)>::empty());
        assert(text::texts(out@) =~= all.take(0).filter_map(pick));
    }
    while i < links.len()
        invariant
            i <= links.len(),
            all == link_infos(links@),
            pick == (|l: (Seq<char>, Seq<char>)|
                if end_element(l.1) == id@ {
                    Some(end_element(l.0))
                } else {
                    None
                }),
            text::texts(out@) == all.take(i as int).filter_map(pick),
        decreases links.len() - i,
    {
        proof {
            all.lemma_filter_map_take_succ(pick, i as int);
            assert(all[i as int] == (links@[i as int].from@, links@[i as int].to@));
        }
        let ghost before = text::texts(out@);
        let to = first_piece(links[i].to.as_str());
        if text::same(to.as_str(), id) {
            let from = first_piece(links[i].from.as_str());
            let ghost shown = from@;
            out.push(from);
            assert(text::texts(out@) =~= before + seq![shown]);
        } else {
            assert(before =~= before + Seq::<Seq<char>>::empty());
        }
        i += 1;
    }
    proof {
        assert(all.take(all.len() as int) =~= all);
    }
    out
}

fn find_element(elements: &Vec<Element>, id: &str) -> (r: Option<usize>)
    ensures
        r matches Some(i) ==> position_of(element_infos(elements@), id@) == Some(i as int) && i
            < elements.len() && elements@[i as int].id@ == id@,
        r is None ==> position_of(element_infos(elements@), id@) is None,
{
    let ghost all = element_infos(elements@);
    let mut n: usize = elements.len();
    proof {
        assert(all.take(n as int) =~= all);
    }
    while n > 0
        invariant
            n <= elements.len(),
            all == element_infos(elements@),
            position_of(all.take(n as int), id@) == position_of(all, id@),
        decreases n,
    {
        proof {
            assert(all.take(n as int).drop_last() =~= all.take(n - 1));
            assert(all.take(n as int).last() == elements@[n - 1]@);
        }
        if text::same(elements[n - 1].id.as_str(), id) {
            return Some(n - 1);
        }
        n -= 1;
    }
    None
}

proof fn lemma_stepped_text(elements: Seq<ElementInfo>, walk: Walk, node: Node)
    requires
        is_begun(walk),
    ensures
        chains_text(elements, stepped(elements, walk, node).chains) == chains_text(
            elements,
            walk.chains,
        ) + " ! "@ + step_text(elements, node),
        is_begun(stepped(elements, walk, node)),
{
    let longer = stepped(elements, walk, node).chains;
    let chain = walk.chains.last();
    assert(longer.drop_last() =~= walk.chains.drop_last());
    assert(chain.push(node).drop_last() =~= chain);
    let before = chains_text(elements, walk.chains.drop_last());
    assert(chains_text(elements, longer) =~= chains_text(elements, walk.chains) + " ! "@
        + step_text(elements, node));
}

proof fn lemma_started_text(elements: Seq<ElementInfo>, walk: Walk, node: Node)
    ensures
        chains_text(elements, started(elements, walk, node).chains) == chains_text(
            elements,
            walk.chains,
        ) + line_break(chains_text(elements, walk.chains)) + start_text(elements, node),
        is_begun(started(elements, walk, node)),
{
    let longer = started(elements, walk, node).chains;
    assert(longer.drop_last() =~= walk.chains);
}

/// Marks an element as written.
fn mark(visited: &mut Vec<String>, id: &str)
    ensures
        forall|x: Seq<char>| #[trigger]
            text::texts(final(visited)@).contains(x) <==> text::texts(old(visited)@).contains(x)
                || x == id@,
{
    let ghost seen = text::texts(visited@);
    visited.push(id.to_owned());
    proof {
        let now = text::texts(visited@);
        assert(now =~= seen.push(id@));
        assert forall|x: Seq<char>| #[trigger] now.contains(x) <==> seen.contains(x) || x == id@ by {
            if seen.contains(x) {
                let k = choose|k: int| 0 <= k < seen.len() && seen[k] == x;
                assert(now[k] == x);
            }
            if x == id@ {
                assert(now[seen.len() as int] == x);
            }
            if now.contains(x) && x != id@ {
                let k = choose|k: int| 0 <= k < now.len() && now[k] == x;
                assert(seen[k] == x);
            }
        }
    }
}

/// Starts a new line where something is written already.
fn break_line(progress: &mut Progress)
    ensures
        final(progress).visited@ == old(progress).visited@,
        final(progress).pending@ == old(progress).pending@,
        final(progress).out@ == old(progress).out@ + line_break(old(progress).out@),
{
    let ghost before = progress.out@;
    if !progress.out.as_str().is_empty() {
        progress.out.append(" \\\n  ");
    } else {
        assert(before + line_break(before) =~= before);
    }
}

fn write_element(
    progress: &mut Progress,
    Ghost(walk): Ghost<Walk>,
    elements: &Vec<Element>,
    i: usize,
    named: bool,
    first: bool,
)
    requires
        tracks(*old(progress), element_infos(elements@), walk),
        i < elements.len(),
        !first ==> is_begun(walk),
    ensures
        ({
            let node = Node::Element(i as int, named);
            let infos = element_infos(elements@);
            let after = if first {
                started(infos, walk, node)
            } else {
                stepped(infos, walk, node)
            };
            tracks(*final(progress), infos, after) && is_begun(after)
        }),
{
    let ghost infos = element_infos(elements@);
    let ghost node = Node::Element(i as int, named);
    proof {
        assert(infos[i as int].id == elements@[i as int].id@);
        if first {
            lemma_started_text(infos, walk, node);
        } else {
            lemma_stepped_text(infos, walk, node);
        }
    }
    if first {
        break_line(progress);
    } else {
        progress.out.append(" ! ");
    }
    let shown = format_element(&elements[i], named);
    progress.out.append(shown.as_str());
    mark(&mut progress.visited, elements[i].id.as_str());
}

fn start_reference(progress: &mut Progress, Ghost(elements): Ghost<Seq<ElementInfo>>, Ghost(
    walk,
): Ghost<Walk>, id: &str)
    requires
        tracks(*old(progress), elements, walk),
    ensures
        tracks(*final(progress), elements, started(elements, walk, Node::Reference(id@))),
        is_begun(started(elements, walk, Node::Reference(id@))),
{
    proof {
        lemma_started_text(elements, walk, Node::Reference(id@));
    }
    break_line(progress);
    let reference = id.to_owned().concat(".");
    progress.out.append(reference.as_str());
}

fn step_reference(progress: &mut Progress, Ghost(elements): Ghost<Seq<ElementInfo>>, Ghost(
    walk,
): Ghost<Walk>, id: &str)
    requires
        tracks(*old(progress), elements, walk),
        is_begun(walk),
    ensures
        tracks(*final(progress), elements, stepped(elements, walk, Node::Reference(id@))),
        is_begun(stepped(elements, walk, Node::Reference(id@))),
{
    proof {
        lemma_stepped_text(elements, walk, Node::Reference(id@));
    }
    progress.out.append(" ! ");
    let reference = id.to_owned().concat(". ");
    progress.out.append(reference.as_str());
}

/// Keeps the connections of an element but the first for later.
fn keep_branches(
    progress: &mut Progress,
    Ghost(elements): Ghost<Seq<ElementInfo>>,
    Ghost(links): Ghost<Seq<(Seq<char>, Seq<char>)>>,
    Ghost(walk): Ghost<Walk>,
    id: &str,
    ahead: &Vec<String>,
)
    requires
        tracks(*old(progress), elements, walk),
        text::texts(ahead@) == targets(links, id@),
    ensures
        tracks(*final(progress), elements, with_branches(links, id@, walk)),
{
    let ghost all = leaving(links, id@);
    let ghost before = pending_texts(progress.pending@);
    let mut k: usize = 1;
    proof {
        assert(all.len() == ahead.len());
        assert(before =~= before + all.skip(1).take(0));
    }
    while k < ahead.len()
        invariant
            1 <= k,
            k <= ahead.len() || k == 1,
            all == leaving(links, id@),
            all.len() == ahead.len(),
            text::texts(ahead@) == targets(links, id@),
            progress.out@ == chains_text(elements, walk.chains),
            forall|x: Seq<char>|
                walk.visited.contains(x) <==> #[trigger] text::texts(progress.visited@).contains(x),
            pending_texts(progress.pending@) == before + all.skip(1).take(k - 1),
        decreases ahead.len() - k,
    {
        let ghost now = pending_texts(progress.pending@);
        let ghost to = ahead@[k as int]@;
        progress.pending.push((id.to_owned(), ahead[k].clone()));
        proof {
            assert(text::texts(ahead@)[k as int] == to);
            assert(all.skip(1)[k - 1] == (id@, to));
            assert(pending_texts(progress.pending@) =~= now.push((id@, to)));
            assert(pending_texts(progress.pending@) =~= before + all.skip(1).take(k as int));
        }
        k += 1;
    }
    proof {
        if all.len() > 1 {
            assert(all.skip(1).take(k - 1) =~= all.skip(1));
        } else {
            assert(before + all.skip(1).take(0) =~= before);
        }
    }
}

/// Follows a chain on from the element at position `start`.
fn follow(
    progress: &mut Progress,
    Ghost(walk): Ghost<Walk>,
    elements: &Vec<Element>,
    links: &Vec<Link>,
    start: usize,
) -> (r: bool)
    requires
        tracks(*old(progress), element_infos(elements@), walk),
        is_begun(walk),
        start < elements.len(),
    ensures
        match followed(element_infos(elements@), link_infos(links@), start as int, walk) {
            Some(after) => r && tracks(*final(progress), element_infos(elements@), after),
            None => !r,
        },
{
    let ghost infos = element_infos(elements@);
    let ghost ends = link_infos(links@);
    let ghost mut now = walk;
    let mut current: usize = start;
    loop
        invariant
            infos == element_infos(elements@),
            ends == link_infos(links@),
            tracks(*progress, infos, now),
            is_begun(now),
            current < elements.len(),
            followed(infos, ends, current as int, now) == followed(
                infos,
                ends,
                start as int,
                walk,
            ),
        decreases unvisited(infos, now.visited),
    {
        let id = elements[current].id.as_str();
        let ahead = targets_of(links, id);
        let ghost kept = with_branches(ends, id@, now);
        proof {
            assert(infos[current as int].id == id@);
            assert(text::texts(ahead@).len() == ahead.len());
        }
        keep_branches(progress, Ghost(infos), Ghost(ends), Ghost(now), id, &ahead);
        if ahead.len() == 0 {
            return true;
        }
        let first = ahead[0].as_str();
        assert(text::texts(ahead@)[0] == first@);
        if text::is_among(&progress.visited, first) {
            step_reference(progress, Ghost(infos), Ghost(kept), first);
            return true;
        }
        match find_element(elements, first) {
            None => {
                return false;
            },
            Some(j) => {
                proof {
                    assert(infos[j as int].id == first@);
                    lemma_filter_shrinks(infos, now.visited, j as int);
                }
                let named = name_needed(links, elements[j].id.as_str());
                write_element(progress, Ghost(kept), elements, j, named, false);
                current = j;
                proof {
                    now = stepped(infos, kept, Node::Element(j as int, named));
                }
            },
        }
    }
}

fn name_needed(links: &Vec<Link>, id: &str) -> (r: bool)
    ensures
        r == is_named(link_infos(links@), id@),
{
    let ahead = targets_of(links, id);
    let from = origins_of(links, id);
    proof {
        assert(text::texts(ahead@).len() == ahead.len());
        assert(text::texts(from@).len() == from.len());
    }
    ahead.len() > 1 || from.len() > 1
}

fn is_led_to(elements: &Vec<Element>, links: &Vec<Link>, id: &str) -> (r: bool)
    ensures
        r == led_to(element_infos(elements@), link_infos(links@), id@),
{
    let ghost infos = element_infos(elements@);
    let ghost ends = link_infos(links@);
    let mut k: usize = 0;
    while k < links.len()
        invariant
            k <= links.len(),
            infos == element_infos(elements@),
            ends == link_infos(links@),
            forall|m: int|
                0 <= m < k ==> !(end_element((#[trigger] ends[m]).1) == id@ && position_of(
                    infos,
                    end_element(ends[m].0),
                ) is Some),
        decreases links.len() - k,
    {
        assert(ends[k as int] == (links@[k as int].from@, links@[k as int].to@));
        let to = first_piece(links[k].to.as_str());
        let from = first_piece(links[k].from.as_str());
        if text::same(to.as_str(), id) && find_element(elements, from.as_str()).is_some() {
            return true;
        }
        k += 1;
    }
    false
}

/// Writes a chain from the element at position `i`.
fn start(
    progress: &mut Progress,
    Ghost(walk): Ghost<Walk>,
    elements: &Vec<Element>,
    links: &Vec<Link>,
    i: usize,
) -> (r: bool)
    requires
        tracks(*old(progress), element_infos(elements@), walk),
        i < elements.len(),
    ensures
        match after_start(element_infos(elements@), link_infos(links@), i as int, walk) {
            Some(after) => r && tracks(*final(progress), element_infos(elements@), after),
            None => !r,
        },
{
    let ghost infos = element_infos(elements@);
    let id = elements[i].id.as_str();
    let ahead = targets_of(links, id);
    let named = ahead.len() > 1 || is_led_to(elements, links, id);
    proof {
        assert(infos[i as int].id == id@);
        assert(text::texts(ahead@).len() == ahead.len());
    }
    write_element(progress, Ghost(walk), elements, i, named, true);
    follow(
        progress,
        Ghost(started(infos, walk, Node::Element(i as int, named))),
        elements,
        links,
        i,
    )
}

/// Writes the connections that were kept for later.
fn write_pending(
    progress: &mut Progress,
    Ghost(walk): Ghost<Walk>,
    elements: &Vec<Element>,
    links: &Vec<Link>,
) -> (r: bool)
    requires
        tracks(*old(progress), element_infos(elements@), walk),
    ensures
        match after_pending(element_infos(elements@), link_infos(links@), walk) {
            Some(after) => r && tracks(*final(progress), element_infos(elements@), after),
            None => !r,
        },
{
    let ghost infos = element_infos(elements@);
    let ghost ends = link_infos(links@);
    let ghost mut now = walk;
    while progress.pending.len() > 0
        invariant
            infos == element_infos(elements@),
            ends == link_infos(links@),
            tracks(*progress, infos, now),
            after_pending(infos, ends, now) == after_pending(infos, ends, walk),
        decreases unvisited(infos, now.visited), now.pending.len(),
    {
        let ghost before = pending_texts(progress.pending@);
        let (from, to) = progress.pending.remove(0);
        let ghost taken = Walk { pending: now.pending.skip(1), ..now };
        let ghost begun = started(infos, taken, Node::Reference(from@));
        proof {
            assert(before[0] == (from@, to@));
            assert(pending_texts(progress.pending@) =~= before.skip(1));
        }
        start_reference(progress, Ghost(infos), Ghost(taken), from.as_str());
        if text::is_among(&progress.visited, to.as_str()) {
            step_reference(progress, Ghost(infos), Ghost(begun), to.as_str());
            proof {
                now = stepped(infos, begun, Node::Reference(to@));
            }
        } else {
            match find_element(elements, to.as_str()) {
                None => {
                    return false;
                },
                Some(j) => {
                    let named = name_needed(links, elements[j].id.as_str());
                    write_element(progress, Ghost(begun), elements, j, named, false);
                    let ghost onto = stepped(infos, begun, Node::Element(j as int, named));
                    proof {
                        assert(infos[j as int].id == to@);
                        lemma_filter_shrinks(infos, now.visited, j as int);
                        lemma_followed_grows(infos, ends, j as int, onto);
                    }
                    if !follow(progress, Ghost(onto), elements, links, j) {
                        return false;
                    }
                    proof {
                        let next = followed(infos, ends, j as int, onto)->0;
                        lemma_unvisited_shrinks(infos, onto.visited, next.visited);
                        now = next;
                    }
                },
            }
        }
    }
    true
}

/// Writes a graph of elements in `gst-launch-1.0` syntax. `None` where a
/// connection leads from an element to something that is none.
pub fn elements_to_gst_launch(elements: &Vec<Element>, links: &Vec<Link>) -> (r: Option<String>)
    ensures
        match pipeline_text(element_infos(elements@), link_infos(links@)) {
            Some(out) => r matches Some(s) && s@ == out,
            None => r is None,
        },
{
    let ghost infos = element_infos(elements@);
    let ghost ends = link_infos(links@);
    let mut progress = Progress { visited: Vec::new(), out: String::new(), pending: Vec::new() };
    let ghost mut walk = after_sources(infos, ends, 0)->0;
    let mut i: usize = 0;
    proof {
        assert(pending_texts(progress.pending@) =~= Seq::<(Seq<char>, Seq<char>)>::empty());
    }
    while i < elements.len()
        invariant
            i <= elements.len(),
            infos == element_infos(elements@),
            ends == link_infos(links@),
            after_sources(infos, ends, i as int) == Some(walk),
            tracks(progress, infos, walk),
        decreases elements.len() - i,
    {
        let id = elements[i].id.as_str();
        let from = origins_of(links, id);
        proof {
            assert(infos[i as int].id == id@);
            assert(text::texts(from@).len() == from.len());
        }
        if from.len() == 0 && !text::is_among(&progress.visited, id) {
            if !start(&mut progress, Ghost(walk), elements, links, i) {
                proof {
                    assert(after_sources(infos, ends, i + 1) is None);
                    lemma_sources_stay_none(infos, ends, i + 1, infos.len() as int);
                }
                return None;
            }
            proof {
                walk = after_start(infos, ends, i as int, walk)->0;
            }
        }
        i += 1;
    }
    if !write_pending(&mut progress, Ghost(walk), elements, links) {
        return None;
    }
    let ghost linked = after_pending(infos, ends, walk)->0;
    let ghost mut now = linked;
    let mut m: usize = 0;
    while m < elements.len()
        invariant
            m <= elements.len(),
            infos == element_infos(elements@),
            ends == link_infos(links@),
            after_rest(infos, ends, linked, m as int) == Some(now),
            tracks(progress, infos, now),
            full_walk(infos, ends) == after_rest(infos, ends, linked, infos.len() as int),
        decreases elements.len() - m,
    {
        let id = elements[m].id.as_str();
        assert(infos[m as int].id == id@);
        if !text::is_among(&progress.visited, id) {
            if !start(&mut progress, Ghost(now), elements, links, m) {
                proof {
                    assert(after_rest(infos, ends, linked, m + 1) is None);
                    lemma_rest_stays_none(infos, ends, linked, m + 1, infos.len() as int);
                }
                return None;
            }
            let ghost next = after_start(infos, ends, m as int, now)->0;
            if !write_pending(&mut progress, Ghost(next), elements, links) {
                proof {
                    assert(after_rest(infos, ends, linked, m + 1) is None);
                    lemma_rest_stays_none(infos, ends, linked, m + 1, infos.len() as int);
                }
                return None;
            }
            proof {
                now = after_pending(infos, ends, next)->0;
            }
        }
        m += 1;
    }
    Some(progress.out)
}

proof fn lemma_sources_stay_none(
    elements: Seq<ElementInfo>,
    links: Seq<(Seq<char>, Seq<char>)>,
    i: int,
    n: int,
)
    requires
        0 < i <= n,
        after_sources(elements, links, i) is None,
    ensures
        after_sources(elements, links, n) is None,
    decreases n,
{
    if i < n {
        lemma_sources_stay_none(elements, links, i, n - 1);
    }
}

proof fn lemma_rest_stays_none(
    elements: Seq<ElementInfo>,
    links: Seq<(Seq<char>, Seq<char>)>,
    walk: Walk,
    i: int,
    n: int,
)
    requires
        0 < i <= n,
        after_rest(elements, links, walk, i) is None,
    ensures
        after_rest(elements, links, walk, n) is None,
    decreases n,
{
    if i < n {
        lemma_rest_stays_none(elements, links, walk, i, n - 1);
    }
}

// ---------------------------------------------------------------------------
// Every element and every connection is written once
// ---------------------------------------------------------------------------

pub open spec fn element_ids_differ(elements: Seq<ElementInfo>) -> bool {
    forall|i: int, j: int|
        0 <= i < j < elements.len() ==> (#[trigger] elements[i]).id != (#[trigger] elements[j]).id
}

/// Everything that stands in the chains, in order.
pub open spec fn nodes(chains: Seq<Chain>) -> Seq<Node>
    decreases chains.len(),
{
    if chains.len() == 0 {
        Seq::empty()
    } else {
        nodes(chains.drop_last()) + chains.last()
    }
}

/// The positions of the elements that are written, in order.
pub open spec fn shown(written: Seq<Node>) -> Seq<int>
    decreases written.len(),
{
    if written.len() == 0 {
        Seq::empty()
    } else {
        let before = shown(written.drop_last());
        match written.last() {
            Node::Element(i, _) => before.push(i),
            Node::Reference(_) => before,
        }
    }
}

/// The connections that a chain writes: of each node with the next.
pub open spec fn chain_connections(elements: Seq<ElementInfo>, chain: Chain) -> Seq<
    (Seq<char>, Seq<char>),
>
    decreases chain.len(),
{
    if chain.len() < 2 {
        Seq::empty()
    } else {
        chain_connections(elements, chain.drop_last()).push(
            (node_id(elements, chain[chain.len() - 2]), node_id(elements, chain.last())),
        )
    }
}

/// The connections that chains write, in order.
pub open spec fn connections(elements: Seq<ElementInfo>, chains: Seq<Chain>) -> Seq<
    (Seq<char>, Seq<char>),
>
    decreases chains.len(),
{
    if chains.len() == 0 {
        Seq::empty()
    } else {
        connections(elements, chains.drop_last()) + chain_connections(elements, chains.last())
    }
}

/// The connections of a graph: the elements that each is between.
pub open spec fn link_ends(links: Seq<(Seq<char>, Seq<char>)>) -> Seq<(Seq<char>, Seq<char>)> {
    links.map_values(|l: (Seq<char>, Seq<char>)| (end_element(l.0), end_element(l.1)))
}

/// Every connection leaves an element of the graph.
pub open spec fn links_leave_elements(
    elements: Seq<ElementInfo>,
    links: Seq<(Seq<char>, Seq<char>)>,
) -> bool {
    forall|k: int|
        0 <= k < links.len() ==> position_of(elements, end_element((#[trigger] links[k]).0)) is Some
}

/// Every connection that leaves an element of the graph leads to one.
pub open spec fn none_dangles(
    elements: Seq<ElementInfo>,
    links: Seq<(Seq<char>, Seq<char>)>,
) -> bool {
    forall|k: int|
        0 <= k < links.len() && position_of(elements, end_element((#[trigger] links[k]).0)) is Some
            ==> position_of(elements, end_element(links[k].1)) is Some
}

/// The element with an id is written with its name.
pub open spec fn named_in(elements: Seq<ElementInfo>, written: Seq<Node>, id: Seq<char>) -> bool {
    exists|j: int|
        0 <= j < written.len() && ((#[trigger] written[j]) matches Node::Element(i, named) && named
            && elements[i].id == id)
}

proof fn lemma_shown_push(seen: Seq<int>, i: int, k: int)
    ensures
        seen.push(i).contains(k) <==> seen.contains(k) || k == i,
        seen.no_duplicates() && !seen.contains(i) ==> seen.push(i).no_duplicates(),
{
    let more = seen.push(i);
    if seen.contains(k) {
        let j = choose|j: int| 0 <= j < seen.len() && seen[j] == k;
        assert(more[j] == k);
    }
    if k == i {
        assert(more[seen.len() as int] == k);
    }
    if more.contains(k) && k != i {
        let j = choose|j: int| 0 <= j < more.len() && more[j] == k;
        assert(seen[j] == k);
    }
    if seen.no_duplicates() && !seen.contains(i) {
        assert forall|a: int, b: int| 0 <= a < more.len() && 0 <= b < more.len() && a != b implies
            more[a] != more[b] by {
            if a == seen.len() {
                assert(seen.contains(seen[b]));
            } else if b == seen.len() {
                assert(seen.contains(seen[a]));
            }
        }
    }
}

/// How many of the connections satisfy a predicate.
spec fn tally(
    s: Seq<(Seq<char>, Seq<char>)>,
    p: spec_fn((Seq<char>, Seq<char>)) -> bool,
) -> int
    decreases s.len(),
{
    if s.len() == 0 {
        0
    } else {
        tally(s.drop_last(), p) + if p(s.last()) {
            1int
        } else {
            0int
        }
    }
}

proof fn lemma_tally_push(
    s: Seq<(Seq<char>, Seq<char>)>,
    x: (Seq<char>, Seq<char>),
    p: spec_fn((Seq<char>, Seq<char>)) -> bool,
)
    ensures
        tally(s.push(x), p) == tally(s, p) + if p(x) {
            1int
        } else {
            0int
        },
{
    assert(s.push(x).drop_last() =~= s);
}

proof fn lemma_tally_add(
    s: Seq<(Seq<char>, Seq<char>)>,
    t: Seq<(Seq<char>, Seq<char>)>,
    p: spec_fn((Seq<char>, Seq<char>)) -> bool,
)
    ensures
        tally(s + t, p) == tally(s, p) + tally(t, p),
    decreases t.len(),
{
    if t.len() == 0 {
        assert(s + t =~= s);
    } else {
        assert((s + t).drop_last() =~= s + t.drop_last());
        lemma_tally_add(s, t.drop_last(), p);
    }
}

/// The first of some connections and the others.
proof fn lemma_tally_first(
    s: Seq<(Seq<char>, Seq<char>)>,
    p: spec_fn((Seq<char>, Seq<char>)) -> bool,
)
    requires
        s.len() > 0,
    ensures
        tally(s, p) == tally(s.skip(1), p) + if p(s[0]) {
            1int
        } else {
            0int
        },
{
    let first = Seq::empty().push(s[0]);
    lemma_tally_push(Seq::empty(), s[0], p);
    lemma_tally_add(first, s.skip(1), p);
    assert(first + s.skip(1) =~= s);
}

proof fn lemma_tally_is_not_negative(
    s: Seq<(Seq<char>, Seq<char>)>,
    p: spec_fn((Seq<char>, Seq<char>)) -> bool,
)
    ensures
        tally(s, p) >= 0,
    decreases s.len(),
{
    if s.len() > 0 {
        lemma_tally_is_not_negative(s.drop_last(), p);
    }
}

proof fn lemma_tally_is_count(
    s: Seq<(Seq<char>, Seq<char>)>,
    x: (Seq<char>, Seq<char>),
    p: spec_fn((Seq<char>, Seq<char>)) -> bool,
)
    requires
        forall|y: (Seq<char>, Seq<char>)| #[trigger] p(y) <==> y == x,
    ensures
        s.to_multiset().count(x) == tally(s, p),
    decreases s.len(),
{
    s.to_multiset_ensures();
    if s.len() > 0 {
        let init = s.drop_last();
        lemma_tally_is_count(init, x, p);
        init.to_multiset_ensures();
        assert(init.push(s.last()) =~= s);
    } else {
        assert(!s.contains(x));
    }
}

/// How many of the connections that leave some elements satisfy a predicate.
spec fn owed(
    elements: Seq<ElementInfo>,
    links: Seq<(Seq<char>, Seq<char>)>,
    seen: Seq<int>,
    p: spec_fn((Seq<char>, Seq<char>)) -> bool,
) -> int
    decreases seen.len(),
{
    if seen.len() == 0 {
        0
    } else {
        owed(elements, links, seen.drop_last(), p) + tally(
            leaving(links, elements[seen.last()].id),
            p,
        )
    }
}

/// What one connection more adds to those that leave an element.
proof fn lemma_leaving_push(
    links: Seq<(Seq<char>, Seq<char>)>,
    l: (Seq<char>, Seq<char>),
    id: Seq<char>,
)
    ensures
        leaving(links.push(l), id) == if end_element(l.0) == id {
            leaving(links, id).push((id, end_element(l.1)))
        } else {
            leaving(links, id)
        },
{
    let pick = |l: (Seq<char>, Seq<char>)|
        if end_element(l.0) == id {
            Some(end_element(l.1))
        } else {
            None
        };
    let all = links.push(l);
    let n = links.len() as int;
    all.lemma_filter_map_take_succ(pick, n);
    assert(all.take(n + 1) =~= all);
    assert(all.take(n) =~= links);
    assert(all[n] == l);
    if end_element(l.0) == id {
        assert(targets(all, id) =~= targets(links, id).push(end_element(l.1)));
        assert(leaving(all, id) =~= leaving(links, id).push((id, end_element(l.1))));
    } else {
        assert(targets(all, id) =~= targets(links, id));
    }
}

/// What one connection more adds to those that leave some elements: itself, if
/// it leaves one of them.
proof fn lemma_owed_push(
    elements: Seq<ElementInfo>,
    links: Seq<(Seq<char>, Seq<char>)>,
    l: (Seq<char>, Seq<char>),
    seen: Seq<int>,
    p: spec_fn((Seq<char>, Seq<char>)) -> bool,
)
    requires
        element_ids_differ(elements),
        seen.no_duplicates(),
        forall|k: int| 0 <= k < seen.len() ==> 0 <= #[trigger] seen[k] < elements.len(),
    ensures
        owed(elements, links.push(l), seen, p) == owed(elements, links, seen, p) + if p(
            (end_element(l.0), end_element(l.1)),
        ) && exists|k: int|
            0 <= k < seen.len() && elements[#[trigger] seen[k]].id == end_element(l.0) {
            1int
        } else {
            0int
        },
    decreases seen.len(),
{
    if seen.len() > 0 {
        let init = seen.drop_last();
        let last = seen.last();
        let from = end_element(l.0);
        assert forall|k: int| 0 <= k < init.len() implies 0 <= #[trigger] init[k]
            < elements.len() by {
            assert(init[k] == seen[k]);
        }
        lemma_owed_push(elements, links, l, init, p);
        lemma_leaving_push(links, l, elements[last].id);
        lemma_tally_push(leaving(links, elements[last].id), (from, end_element(l.1)), p);
        assert(seen[seen.len() - 1] == last);
        if exists|k: int| 0 <= k < init.len() && elements[#[trigger] init[k]].id == from {
            let k = choose|k: int| 0 <= k < init.len() && elements[#[trigger] init[k]].id == from;
            assert(seen[k] == init[k]);
            assert(init[k] != last);
            if init[k] < last {
                assert(elements[init[k]].id != elements[last].id);
            } else {
                assert(elements[last].id != elements[init[k]].id);
            }
        } else if elements[last].id != from {
            assert forall|k: int| 0 <= k < seen.len() implies elements[#[trigger] seen[k]].id
                != from by {
                if k < init.len() {
                    assert(init[k] == seen[k]);
                }
            }
        }
    }
}

/// The connections that leave some elements are connections of the graph, and
/// all of them where every connection leaves one of these.
proof fn lemma_owed_of_graph(
    elements: Seq<ElementInfo>,
    links: Seq<(Seq<char>, Seq<char>)>,
    seen: Seq<int>,
    p: spec_fn((Seq<char>, Seq<char>)) -> bool,
)
    requires
        element_ids_differ(elements),
        seen.no_duplicates(),
        forall|k: int| 0 <= k < seen.len() ==> 0 <= #[trigger] seen[k] < elements.len(),
    ensures
        owed(elements, links, seen, p) <= tally(link_ends(links), p),
        (forall|m: int|
            0 <= m < links.len() ==> exists|k: int|
                0 <= k < seen.len() && elements[#[trigger] seen[k]].id == end_element(
                    (#[trigger] links[m]).0,
                )) ==> owed(elements, links, seen, p) == tally(link_ends(links), p),
    decreases links.len(),
{
    if links.len() == 0 {
        lemma_owed_of_none(elements, links, seen, p);
    } else {
        let init = links.drop_last();
        let l = links.last();
        lemma_owed_of_graph(elements, init, seen, p);
        lemma_owed_push(elements, init, l, seen, p);
        assert(init.push(l) =~= links);
        lemma_tally_push(link_ends(init), (end_element(l.0), end_element(l.1)), p);
        assert(link_ends(links) =~= link_ends(init).push((end_element(l.0), end_element(l.1))));
        if forall|m: int|
            0 <= m < links.len() ==> exists|k: int|
                0 <= k < seen.len() && elements[#[trigger] seen[k]].id == end_element(
                    (#[trigger] links[m]).0,
                ) {
            assert(links[links.len() - 1] == l);
            assert forall|m: int| 0 <= m < init.len() implies exists|k: int|
                0 <= k < seen.len() && elements[#[trigger] seen[k]].id == end_element(
                    (#[trigger] init[m]).0,
                ) by {
                assert(links[m] == init[m]);
            }
        }
    }
}

proof fn lemma_owed_of_none(
    elements: Seq<ElementInfo>,
    links: Seq<(Seq<char>, Seq<char>)>,
    seen: Seq<int>,
    p: spec_fn((Seq<char>, Seq<char>)) -> bool,
)
    requires
        links.len() == 0,
    ensures
        owed(elements, links, seen, p) == 0,
    decreases seen.len(),
{
    if seen.len() > 0 {
        lemma_owed_of_none(elements, links, seen.drop_last(), p);
        let id = elements[seen.last()].id;
        let pick = |l: (Seq<char>, Seq<char>)|
            if end_element(l.0) == id {
                Some(end_element(l.1))
            } else {
                None
            };
        assert(targets(links, id).len() == 0) by {
            if targets(links, id).len() > 0 {
                let x = targets(links, id)[0];
                assert(links.filter_map(pick).contains(x));
                links.lemma_filter_map_contains(pick, x);
            }
        }
        assert(leaving(links, id).len() == 0);
    }
}

/// What a node adds to the chains that it is written in.
proof fn lemma_node_added(elements: Seq<ElementInfo>, walk: Walk, node: Node)
    ensures
        nodes(started(elements, walk, node).chains) == nodes(walk.chains).push(node),
        connections(elements, started(elements, walk, node).chains) == connections(
            elements,
            walk.chains,
        ),
        is_begun(walk) ==> nodes(stepped(elements, walk, node).chains) == nodes(walk.chains).push(
            node,
        ),
        is_begun(walk) ==> connections(elements, stepped(elements, walk, node).chains)
            == connections(elements, walk.chains).push(
            (node_id(elements, walk.chains.last().last()), node_id(elements, node)),
        ),
{
    let begun = started(elements, walk, node).chains;
    assert(begun.drop_last() =~= walk.chains);
    assert(nodes(begun) =~= nodes(walk.chains).push(node));
    assert(chain_connections(elements, seq![node]) =~= Seq::empty());
    assert(connections(elements, begun) =~= connections(elements, walk.chains));
    if is_begun(walk) {
        let longer = stepped(elements, walk, node).chains;
        let chain = walk.chains.last();
        assert(longer.drop_last() =~= walk.chains.drop_last());
        assert(nodes(longer) =~= nodes(walk.chains).push(node));
        assert(chain.push(node).drop_last() =~= chain);
        let pair = (node_id(elements, chain.last()), node_id(elements, node));
        assert(chain_connections(elements, chain.push(node)) =~= chain_connections(
            elements,
            chain,
        ).push(pair));
        assert(connections(elements, longer) =~= connections(elements, walk.chains).push(pair));
    }
}

proof fn lemma_shown_node(written: Seq<Node>, node: Node)
    ensures
        shown(written.push(node)) == (match node {
            Node::Element(i, _) => shown(written).push(i),
            Node::Reference(_) => shown(written),
        }),
{
    assert(written.push(node).drop_last() =~= written);
}

/// What is marked as written is written, once.
spec fn is_sound(elements: Seq<ElementInfo>, walk: Walk) -> bool {
    let seen = shown(nodes(walk.chains));
    &&& forall|k: int|
        0 <= k < elements.len() ==> (walk.visited.contains((#[trigger] elements[k]).id)
            <==> seen.contains(k))
    &&& forall|id: Seq<char>| #[trigger]
        walk.visited.contains(id) ==> position_of(elements, id) is Some
    &&& seen.no_duplicates()
    &&& forall|k: int| #[trigger] seen.contains(k) ==> 0 <= k < elements.len()
}

/// Of the connections that satisfy a predicate, those that leave written
/// elements are written, kept for later, or `left` in number.
spec fn is_balanced(
    elements: Seq<ElementInfo>,
    links: Seq<(Seq<char>, Seq<char>)>,
    walk: Walk,
    p: spec_fn((Seq<char>, Seq<char>)) -> bool,
    left: int,
) -> bool {
    tally(connections(elements, walk.chains), p) + tally(walk.pending, p) + left == owed(
        elements,
        links,
        shown(nodes(walk.chains)),
        p,
    )
}

/// No connection of the graph is written more often than it is there.
proof fn lemma_no_more_than_owed(
    elements: Seq<ElementInfo>,
    links: Seq<(Seq<char>, Seq<char>)>,
    walk: Walk,
    p: spec_fn((Seq<char>, Seq<char>)) -> bool,
)
    requires
        element_ids_differ(elements),
        is_sound(elements, walk),
    ensures
        owed(elements, links, shown(nodes(walk.chains)), p) <= tally(link_ends(links), p),
{
    let seen = shown(nodes(walk.chains));
    assert forall|k: int| 0 <= k < seen.len() implies 0 <= #[trigger] seen[k] < elements.len() by {
        assert(seen.contains(seen[k]));
    }
    lemma_owed_of_graph(elements, links, seen, p);
}

/// Writing an element that was not written keeps the walk sound.
proof fn lemma_sound_element(elements: Seq<ElementInfo>, walk: Walk, i: int, named: bool)
    requires
        element_ids_differ(elements),
        is_sound(elements, walk),
        0 <= i < elements.len(),
        !walk.visited.contains(elements[i].id),
    ensures
        is_sound(elements, started(elements, walk, Node::Element(i, named))),
        is_begun(walk) ==> is_sound(elements, stepped(elements, walk, Node::Element(i, named))),
{
    let node = Node::Element(i, named);
    let next = started(elements, walk, node);
    let seen = shown(nodes(walk.chains));
    lemma_node_added(elements, walk, node);
    lemma_shown_node(nodes(walk.chains), node);
    assert(!seen.contains(i));
    lemma_shown_push(seen, i, i);
    lemma_position_of(elements, elements[i].id);
    assert forall|k: int| 0 <= k < elements.len() implies (next.visited.contains(
        (#[trigger] elements[k]).id,
    ) <==> seen.push(i).contains(k)) by {
        lemma_shown_push(seen, i, k);
        if k < i {
            assert(elements[k].id != elements[i].id);
        } else if i < k {
            assert(elements[i].id != elements[k].id);
        }
    }
    assert forall|k: int| #[trigger] seen.push(i).contains(k) implies 0 <= k < elements.len() by {
        lemma_shown_push(seen, i, k);
    }
}

proof fn lemma_sound_reference(elements: Seq<ElementInfo>, walk: Walk, id: Seq<char>)
    requires
        is_sound(elements, walk),
    ensures
        is_sound(elements, started(elements, walk, Node::Reference(id))),
        is_begun(walk) ==> is_sound(elements, stepped(elements, walk, Node::Reference(id))),
{
    lemma_node_added(elements, walk, Node::Reference(id));
    lemma_shown_node(nodes(walk.chains), Node::Reference(id));
}

/// A walk that keeps track of every connection, with the chain at the element
/// at position `i`, whose connections are not written yet.
spec fn is_at(
    elements: Seq<ElementInfo>,
    links: Seq<(Seq<char>, Seq<char>)>,
    walk: Walk,
    i: int,
    p: spec_fn((Seq<char>, Seq<char>)) -> bool,
) -> bool {
    &&& is_sound(elements, walk)
    &&& is_begun(walk)
    &&& 0 <= i < elements.len()
    &&& node_id(elements, walk.chains.last().last()) == elements[i].id
    &&& is_balanced(elements, links, walk, p, tally(leaving(links, elements[i].id), p))
}

proof fn lemma_leaving_splits(
    links: Seq<(Seq<char>, Seq<char>)>,
    id: Seq<char>,
    walk: Walk,
    p: spec_fn((Seq<char>, Seq<char>)) -> bool,
)
    ensures
        leaving(links, id).len() == targets(links, id).len(),
        targets(links, id).len() == 0 ==> tally(leaving(links, id), p) == 0 && with_branches(
            links,
            id,
            walk,
        ).pending == walk.pending,
        targets(links, id).len() > 0 ==> tally(with_branches(links, id, walk).pending, p) + (if p(
            (id, targets(links, id)[0]),
        ) {
            1int
        } else {
            0int
        }) == tally(walk.pending, p) + tally(leaving(links, id), p),
{
    let all = leaving(links, id);
    if all.len() > 0 {
        lemma_tally_first(all, p);
        lemma_tally_add(walk.pending, all.skip(1), p);
        if all.len() == 1 {
            assert(all.skip(1) =~= Seq::empty());
        }
    }
}

/// Writing the next element of a chain.
proof fn lemma_onto(
    elements: Seq<ElementInfo>,
    links: Seq<(Seq<char>, Seq<char>)>,
    walk: Walk,
    j: int,
    named: bool,
    p: spec_fn((Seq<char>, Seq<char>)) -> bool,
)
    requires
        element_ids_differ(elements),
        is_sound(elements, walk),
        is_begun(walk),
        0 <= j < elements.len(),
        !walk.visited.contains(elements[j].id),
        is_balanced(
            elements,
            links,
            walk,
            p,
            if p((node_id(elements, walk.chains.last().last()), elements[j].id)) {
                1int
            } else {
                0int
            },
        ),
    ensures
        is_at(elements, links, stepped(elements, walk, Node::Element(j, named)), j, p),
{
    let node = Node::Element(j, named);
    let next = stepped(elements, walk, node);
    let seen = shown(nodes(walk.chains));
    lemma_sound_element(elements, walk, j, named);
    lemma_node_added(elements, walk, node);
    lemma_shown_node(nodes(walk.chains), node);
    let pair = (node_id(elements, walk.chains.last().last()), elements[j].id);
    lemma_tally_push(connections(elements, walk.chains), pair, p);
    assert(seen.push(j).drop_last() =~= seen);
}

/// Writing a reference to an element that is written.
proof fn lemma_onto_reference(
    elements: Seq<ElementInfo>,
    links: Seq<(Seq<char>, Seq<char>)>,
    walk: Walk,
    id: Seq<char>,
    p: spec_fn((Seq<char>, Seq<char>)) -> bool,
)
    requires
        is_sound(elements, walk),
        is_begun(walk),
        is_balanced(
            elements,
            links,
            walk,
            p,
            if p((node_id(elements, walk.chains.last().last()), id)) {
                1int
            } else {
                0int
            },
        ),
    ensures
        is_sound(elements, stepped(elements, walk, Node::Reference(id))),
        is_balanced(elements, links, stepped(elements, walk, Node::Reference(id)), p, 0),
{
    let node = Node::Reference(id);
    lemma_sound_reference(elements, walk, id);
    lemma_node_added(elements, walk, node);
    lemma_shown_node(nodes(walk.chains), node);
    let pair = (node_id(elements, walk.chains.last().last()), id);
    lemma_tally_push(connections(elements, walk.chains), pair, p);
}

proof fn lemma_followed(
    elements: Seq<ElementInfo>,
    links: Seq<(Seq<char>, Seq<char>)>,
    i: int,
    walk: Walk,
    p: spec_fn((Seq<char>, Seq<char>)) -> bool,
)
    requires
        element_ids_differ(elements),
        is_at(elements, links, walk, i, p),
    ensures
        followed(elements, links, i, walk) matches Some(after) ==> is_sound(elements, after)
            && is_balanced(elements, links, after, p, 0),
        none_dangles(elements, links) ==> followed(elements, links, i, walk) is Some,
    decreases unvisited(elements, walk.visited),
{
    let id = elements[i].id;
    let ahead = targets(links, id);
    let kept = with_branches(links, id, walk);
    lemma_leaving_splits(links, id, walk, p);
    assert(is_sound(elements, kept));
    if ahead.len() > 0 {
        lemma_target_is_linked(links, id, 0);
        lemma_position_of(elements, id);
        if walk.visited.contains(ahead[0]) {
            lemma_onto_reference(elements, links, kept, ahead[0], p);
        } else if let Some(j) = position_of(elements, ahead[0]) {
            lemma_position_of(elements, ahead[0]);
            lemma_filter_shrinks(elements, walk.visited, j);
            let named = is_named(links, elements[j].id);
            lemma_onto(elements, links, kept, j, named, p);
            lemma_followed(
                elements,
                links,
                j,
                stepped(elements, kept, Node::Element(j, named)),
                p,
            );
        }
    }
}

/// What an element's connections lead to is the end of one of them.
proof fn lemma_target_is_linked(links: Seq<(Seq<char>, Seq<char>)>, id: Seq<char>, n: int)
    requires
        0 <= n < targets(links, id).len(),
    ensures
        exists|k: int|
            0 <= k < links.len() && end_element((#[trigger] links[k]).0) == id && end_element(
                links[k].1,
            ) == targets(links, id)[n],
{
    let pick = |l: (Seq<char>, Seq<char>)|
        if end_element(l.0) == id {
            Some(end_element(l.1))
        } else {
            None
        };
    let x = targets(links, id)[n];
    assert(links.filter_map(pick).contains(x));
    links.lemma_filter_map_contains(pick, x);
    let l = choose|l: (Seq<char>, Seq<char>)| links.contains(l) && pick(l) == Some(x);
    let k = choose|k: int| 0 <= k < links.len() && links[k] == l;
    assert(end_element(links[k].0) == id);
}

/// Every connection that is kept for later is one of the graph, and leaves one
/// of its elements.
spec fn pending_is_linked(
    elements: Seq<ElementInfo>,
    links: Seq<(Seq<char>, Seq<char>)>,
    walk: Walk,
) -> bool {
    forall|n: int|
        0 <= n < walk.pending.len() ==> link_ends(links).contains(#[trigger] walk.pending[n])
            && position_of(elements, walk.pending[n].0) is Some
}

proof fn lemma_followed_pending(
    elements: Seq<ElementInfo>,
    links: Seq<(Seq<char>, Seq<char>)>,
    i: int,
    walk: Walk,
)
    requires
        0 <= i < elements.len(),
        pending_is_linked(elements, links, walk),
    ensures
        followed(elements, links, i, walk) matches Some(after) ==> pending_is_linked(elements, links, after),
    decreases unvisited(elements, walk.visited),
{
    let id = elements[i].id;
    let ahead = targets(links, id);
    let kept = with_branches(links, id, walk);
    assert(pending_is_linked(elements, links, kept)) by {
        lemma_position_of(elements, id);
        assert forall|n: int| 0 <= n < kept.pending.len() implies link_ends(links).contains(
            #[trigger] kept.pending[n],
        ) && position_of(elements, kept.pending[n].0) is Some by {
            if n < walk.pending.len() {
                assert(kept.pending[n] == walk.pending[n]);
            } else {
                let m = n - walk.pending.len() + 1;
                lemma_target_is_linked(links, id, m);
                let k = choose|k: int|
                    0 <= k < links.len() && end_element((#[trigger] links[k]).0) == id
                        && end_element(links[k].1) == targets(links, id)[m];
                assert(link_ends(links)[k] == kept.pending[n]);
            }
        }
    }
    if ahead.len() > 0 && !walk.visited.contains(ahead[0]) {
        if let Some(j) = position_of(elements, ahead[0]) {
            lemma_position_of(elements, ahead[0]);
            lemma_filter_shrinks(elements, walk.visited, j);
            lemma_followed_pending(
                elements,
                links,
                j,
                stepped(elements, kept, Node::Element(j, is_named(links, elements[j].id))),
            );
        }
    }
}

/// A walk that keeps track of every connection, between two chains.
spec fn is_between(
    elements: Seq<ElementInfo>,
    links: Seq<(Seq<char>, Seq<char>)>,
    walk: Walk,
    p: spec_fn((Seq<char>, Seq<char>)) -> bool,
) -> bool {
    &&& is_sound(elements, walk)
    &&& is_balanced(elements, links, walk, p, 0)
    &&& pending_is_linked(elements, links, walk)
}

proof fn lemma_pending(
    elements: Seq<ElementInfo>,
    links: Seq<(Seq<char>, Seq<char>)>,
    walk: Walk,
    p: spec_fn((Seq<char>, Seq<char>)) -> bool,
)
    requires
        element_ids_differ(elements),
        is_between(elements, links, walk, p),
    ensures
        after_pending(elements, links, walk) matches Some(after) ==> is_between(
            elements,
            links,
            after,
            p,
        ) && after.pending.len() == 0 && walk.visited.subset_of(after.visited),
        none_dangles(elements, links) ==> after_pending(elements, links, walk) is Some,
    decreases unvisited(elements, walk.visited), walk.pending.len(),
{
    if walk.pending.len() > 0 {
        let (from, to) = walk.pending[0];
        let taken = Walk { pending: walk.pending.skip(1), ..walk };
        let begun = started(elements, taken, Node::Reference(from));
        lemma_tally_first(walk.pending, p);
        lemma_sound_reference(elements, taken, from);
        lemma_node_added(elements, taken, Node::Reference(from));
        lemma_shown_node(nodes(taken.chains), Node::Reference(from));
        assert(pending_is_linked(elements, links, begun)) by {
            assert forall|n: int| 0 <= n < begun.pending.len() implies link_ends(links).contains(
                #[trigger] begun.pending[n],
            ) && position_of(elements, begun.pending[n].0) is Some by {
                assert(begun.pending[n] == walk.pending[n + 1]);
            }
        }
        if walk.visited.contains(to) {
            lemma_onto_reference(elements, links, begun, to, p);
            lemma_pending(elements, links, stepped(elements, begun, Node::Reference(to)), p);
        } else {
            assert(link_ends(links).contains(walk.pending[0]));
            let k = choose|k: int|
                0 <= k < link_ends(links).len() && link_ends(links)[k] == walk.pending[0];
            assert(end_element(links[k].0) == from && end_element(links[k].1) == to);
            if let Some(j) = position_of(elements, to) {
                lemma_position_of(elements, to);
                let named = is_named(links, elements[j].id);
                let onto = stepped(elements, begun, Node::Element(j, named));
                lemma_onto(elements, links, begun, j, named, p);
                lemma_followed(elements, links, j, onto, p);
                lemma_followed_pending(elements, links, j, onto);
                if let Some(next) = followed(elements, links, j, onto) {
                    lemma_filter_shrinks(elements, walk.visited, j);
                    lemma_followed_grows(elements, links, j, onto);
                    lemma_unvisited_shrinks(elements, onto.visited, next.visited);
                    lemma_pending(elements, links, next, p);
                }
            }
        }
    }
}

proof fn lemma_start(
    elements: Seq<ElementInfo>,
    links: Seq<(Seq<char>, Seq<char>)>,
    i: int,
    walk: Walk,
    p: spec_fn((Seq<char>, Seq<char>)) -> bool,
)
    requires
        element_ids_differ(elements),
        is_between(elements, links, walk, p),
        0 <= i < elements.len(),
        !walk.visited.contains(elements[i].id),
    ensures
        after_start(elements, links, i, walk) matches Some(after) ==> is_between(
            elements,
            links,
            after,
            p,
        ) && walk.visited.insert(elements[i].id).subset_of(after.visited),
        none_dangles(elements, links) ==> after_start(elements, links, i, walk) is Some,
{
    let named = is_named_start(elements, links, elements[i].id);
    let node = Node::Element(i, named);
    let begun = started(elements, walk, node);
    let seen = shown(nodes(walk.chains));
    lemma_sound_element(elements, walk, i, named);
    lemma_node_added(elements, walk, node);
    lemma_shown_node(nodes(walk.chains), node);
    assert(seen.push(i).drop_last() =~= seen);
    assert(is_at(elements, links, begun, i, p));
    lemma_followed(elements, links, i, begun, p);
    lemma_followed_pending(elements, links, i, begun);
    lemma_followed_grows(elements, links, i, begun);
}

proof fn lemma_sources(
    elements: Seq<ElementInfo>,
    links: Seq<(Seq<char>, Seq<char>)>,
    n: int,
    p: spec_fn((Seq<char>, Seq<char>)) -> bool,
)
    requires
        element_ids_differ(elements),
        0 <= n <= elements.len(),
    ensures
        after_sources(elements, links, n) matches Some(walk) ==> is_between(
            elements,
            links,
            walk,
            p,
        ),
        none_dangles(elements, links) ==> after_sources(elements, links, n) is Some,
    decreases n,
{
    if n > 0 {
        lemma_sources(elements, links, n - 1, p);
        if let Some(walk) = after_sources(elements, links, n - 1) {
            if !walk.visited.contains(elements[n - 1].id) {
                lemma_start(elements, links, n - 1, walk, p);
            }
        }
    }
}

proof fn lemma_rest(
    elements: Seq<ElementInfo>,
    links: Seq<(Seq<char>, Seq<char>)>,
    walk: Walk,
    n: int,
    p: spec_fn((Seq<char>, Seq<char>)) -> bool,
)
    requires
        element_ids_differ(elements),
        is_between(elements, links, walk, p),
        walk.pending.len() == 0,
        0 <= n <= elements.len(),
    ensures
        after_rest(elements, links, walk, n) matches Some(after) ==> is_between(
            elements,
            links,
            after,
            p,
        ) && after.pending.len() == 0 && forall|k: int|
            0 <= k < n ==> after.visited.contains((#[trigger] elements[k]).id),
        none_dangles(elements, links) ==> after_rest(elements, links, walk, n) is Some,
    decreases n,
{
    if n > 0 {
        lemma_rest(elements, links, walk, n - 1, p);
        if let Some(now) = after_rest(elements, links, walk, n - 1) {
            if !now.visited.contains(elements[n - 1].id) {
                lemma_start(elements, links, n - 1, now, p);
                if let Some(next) = after_start(elements, links, n - 1, now) {
                    lemma_pending(elements, links, next, p);
                    assert(next.visited.contains(elements[n - 1].id));
                }
            }
        }
    }
}

proof fn lemma_full_walk(
    elements: Seq<ElementInfo>,
    links: Seq<(Seq<char>, Seq<char>)>,
    p: spec_fn((Seq<char>, Seq<char>)) -> bool,
)
    requires
        element_ids_differ(elements),
    ensures
        full_walk(elements, links) matches Some(walk) ==> is_between(elements, links, walk, p)
            && walk.pending.len() == 0 && forall|k: int|
            0 <= k < elements.len() ==> walk.visited.contains((#[trigger] elements[k]).id),
        none_dangles(elements, links) ==> full_walk(elements, links) is Some,
{
    let n = elements.len() as int;
    lemma_sources(elements, links, n, p);
    if let Some(walk) = after_sources(elements, links, n) {
        lemma_pending(elements, links, walk, p);
        if let Some(linked) = after_pending(elements, links, walk) {
            lemma_rest(elements, links, linked, n, p);
        }
    }
}

/// A written pipeline holds every element exactly once.
pub proof fn every_element_is_written_once(
    elements: Seq<ElementInfo>,
    links: Seq<(Seq<char>, Seq<char>)>,
)
    requires
        element_ids_differ(elements),
    ensures
        full_walk(elements, links) matches Some(walk) ==> shown(
            nodes(walk.chains),
        ).no_duplicates() && forall|k: int| #[trigger]
            shown(nodes(walk.chains)).contains(k) <==> 0 <= k < elements.len(),
{
    lemma_full_walk(elements, links, |x: (Seq<char>, Seq<char>)| true);
    if let Some(walk) = full_walk(elements, links) {
        assert forall|k: int| #[trigger] shown(nodes(walk.chains)).contains(k) <==> 0 <= k
            < elements.len() by {
            if 0 <= k < elements.len() {
                assert(walk.visited.contains(elements[k].id));
            }
        }
    }
}

/// A graph whose connections are between its elements is written, and its
/// pipeline holds every connection exactly as often as the graph does: between
/// two nodes of a chain, each of them an element or a reference to one.
pub proof fn every_connection_is_written_once(
    elements: Seq<ElementInfo>,
    links: Seq<(Seq<char>, Seq<char>)>,
)
    requires
        element_ids_differ(elements),
        links_leave_elements(elements, links),
        none_dangles(elements, links),
    ensures
        full_walk(elements, links) matches Some(walk) && connections(
            elements,
            walk.chains,
        ).to_multiset() == link_ends(links).to_multiset(),
{
    every_element_is_written_once(elements, links);
    lemma_full_walk(elements, links, |x: (Seq<char>, Seq<char>)| true);
    let walk = full_walk(elements, links)->0;
    let made = connections(elements, walk.chains);
    let seen = shown(nodes(walk.chains));
    assert forall|x: (Seq<char>, Seq<char>)| made.to_multiset().count(x) == link_ends(
        links,
    ).to_multiset().count(x) by {
        let p = |y: (Seq<char>, Seq<char>)| y == x;
        lemma_full_walk(elements, links, p);
        assert forall|k: int| 0 <= k < seen.len() implies 0 <= #[trigger] seen[k]
            < elements.len() by {
            assert(seen.contains(seen[k]));
        }
        assert forall|m: int| 0 <= m < links.len() implies exists|k: int|
            0 <= k < seen.len() && elements[#[trigger] seen[k]].id == end_element(
                (#[trigger] links[m]).0,
            ) by {
            lemma_position_of(elements, end_element(links[m].0));
            let i = position_of(elements, end_element(links[m].0))->0;
            assert(seen.contains(i));
            let k = choose|k: int| 0 <= k < seen.len() && seen[k] == i;
            assert(elements[seen[k]].id == end_element(links[m].0));
        }
        lemma_owed_of_graph(elements, links, seen, p);
        lemma_tally_is_count(made, x, p);
        lemma_tally_is_count(link_ends(links), x, p);
    }
    assert(made.to_multiset() =~= link_ends(links).to_multiset());
}

/// A connection leads to an id.
spec fn leads_to(id: Seq<char>) -> spec_fn((Seq<char>, Seq<char>)) -> bool {
    |x: (Seq<char>, Seq<char>)| x.1 == id
}

proof fn lemma_origins_are_tallied(links: Seq<(Seq<char>, Seq<char>)>, id: Seq<char>)
    ensures
        origins(links, id).len() == tally(link_ends(links), leads_to(id)),
    decreases links.len(),
{
    let pick = |l: (Seq<char>, Seq<char>)|
        if end_element(l.1) == id {
            Some(end_element(l.0))
        } else {
            None
        };
    if links.len() == 0 {
        if origins(links, id).len() > 0 {
            let x = origins(links, id)[0];
            assert(links.filter_map(pick).contains(x));
            links.lemma_filter_map_contains(pick, x);
        }
    } else {
        let init = links.drop_last();
        let l = links.last();
        let n = init.len() as int;
        lemma_origins_are_tallied(init, id);
        links.lemma_filter_map_take_succ(pick, n);
        assert(links.take(n + 1) =~= links);
        assert(links.take(n) =~= init);
        lemma_tally_push(link_ends(init), (end_element(l.0), end_element(l.1)), leads_to(id));
        assert(link_ends(links) =~= link_ends(init).push((end_element(l.0), end_element(l.1))));
    }
}

/// What the walk has to keep so that every reference to an id is to an element
/// that is written with its name.
spec fn keeps_name(
    elements: Seq<ElementInfo>,
    links: Seq<(Seq<char>, Seq<char>)>,
    walk: Walk,
    id: Seq<char>,
) -> bool {
    let written = nodes(walk.chains);
    &&& walk.visited.contains(id) && !named_in(elements, written, id) ==> {
        &&& targets(links, id).len() <= 1
        &&& {
            ||| !led_to(elements, links, id)
            ||| origins(links, id).len() <= 1 && tally(
                connections(elements, walk.chains),
                leads_to(id),
            ) >= 1
        }
    }
    &&& written.contains(Node::Reference(id)) ==> named_in(elements, written, id)
    &&& forall|n: int|
        0 <= n < walk.pending.len() ==> walk.visited.contains((#[trigger] walk.pending[n]).0)
            && targets(links, walk.pending[n].0).len() > 1
}

/// A node that is written with its name where it has to be keeps the names.
proof fn lemma_name_kept(
    elements: Seq<ElementInfo>,
    links: Seq<(Seq<char>, Seq<char>)>,
    walk: Walk,
    next: Walk,
    node: Node,
    id: Seq<char>,
)
    requires
        keeps_name(elements, links, walk, id),
        nodes(next.chains) == nodes(walk.chains).push(node),
        next.visited == marked(elements, walk.visited, node),
        next.pending == walk.pending,
        tally(connections(elements, next.chains), leads_to(id)) >= tally(
            connections(elements, walk.chains),
            leads_to(id),
        ),
        node == Node::Reference(id) ==> named_in(elements, nodes(walk.chains), id),
        node matches Node::Element(i, named) ==> (elements[i].id == id && !named ==> {
            &&& targets(links, id).len() <= 1
            &&& {
                ||| !led_to(elements, links, id)
                ||| origins(links, id).len() <= 1 && tally(
                    connections(elements, next.chains),
                    leads_to(id),
                ) >= 1
            }
        }),
    ensures
        keeps_name(elements, links, next, id),
{
    let before = nodes(walk.chains);
    let after = nodes(next.chains);
    if named_in(elements, before, id) {
        let j = choose|j: int|
            0 <= j < before.len() && ((#[trigger] before[j]) matches Node::Element(i, named)
                && named && elements[i].id == id);
        assert(after[j] == before[j]);
        assert(named_in(elements, after, id));
    }
    if node matches Node::Element(i, named) && named && elements[i].id == id {
        assert(after[before.len() as int] == node);
        assert(named_in(elements, after, id));
    }
    if after.contains(Node::Reference(id)) && node != Node::Reference(id) {
        let j = choose|j: int| 0 <= j < after.len() && after[j] == Node::Reference(id);
        assert(before[j] == Node::Reference(id));
    }
}

/// A connection that is still to be written to an element that is written
/// leads to one with a name.
proof fn lemma_referred_is_named(
    elements: Seq<ElementInfo>,
    links: Seq<(Seq<char>, Seq<char>)>,
    walk: Walk,
    from: Seq<char>,
    id: Seq<char>,
    left: int,
)
    requires
        element_ids_differ(elements),
        is_sound(elements, walk),
        is_balanced(elements, links, walk, leads_to(id), left),
        tally(walk.pending, leads_to(id)) + left >= 1,
        keeps_name(elements, links, walk, id),
        walk.visited.contains(id),
        position_of(elements, from) is Some,
        link_ends(links).contains((from, id)),
    ensures
        named_in(elements, nodes(walk.chains), id),
{
    lemma_no_more_than_owed(elements, links, walk, leads_to(id));
    lemma_origins_are_tallied(links, id);
    let k = choose|k: int| 0 <= k < link_ends(links).len() && link_ends(links)[k] == (from, id);
    assert(end_element(links[k].1) == id && end_element(links[k].0) == from);
    assert(led_to(elements, links, id));
}

proof fn lemma_step_keeps_name(
    elements: Seq<ElementInfo>,
    links: Seq<(Seq<char>, Seq<char>)>,
    walk: Walk,
    j: int,
    id: Seq<char>,
)
    requires
        is_begun(walk),
        keeps_name(elements, links, walk, id),
    ensures
        keeps_name(
            elements,
            links,
            stepped(elements, walk, Node::Element(j, is_named(links, elements[j].id))),
            id,
        ),
{
    let node = Node::Element(j, is_named(links, elements[j].id));
    lemma_node_added(elements, walk, node);
    let made = connections(elements, walk.chains);
    let pair = (node_id(elements, walk.chains.last().last()), elements[j].id);
    lemma_tally_push(made, pair, leads_to(id));
    lemma_tally_is_not_negative(made, leads_to(id));
    lemma_name_kept(elements, links, walk, stepped(elements, walk, node), node, id);
}

proof fn lemma_reference_keeps_name(
    elements: Seq<ElementInfo>,
    links: Seq<(Seq<char>, Seq<char>)>,
    walk: Walk,
    to: Seq<char>,
    id: Seq<char>,
)
    requires
        keeps_name(elements, links, walk, id),
        to == id ==> named_in(elements, nodes(walk.chains), id),
    ensures
        keeps_name(elements, links, started(elements, walk, Node::Reference(to)), id),
        is_begun(walk) ==> keeps_name(
            elements,
            links,
            stepped(elements, walk, Node::Reference(to)),
            id,
        ),
{
    let node = Node::Reference(to);
    lemma_node_added(elements, walk, node);
    lemma_name_kept(elements, links, walk, started(elements, walk, node), node, id);
    if is_begun(walk) {
        let made = connections(elements, walk.chains);
        lemma_tally_push(
            made,
            (node_id(elements, walk.chains.last().last()), to),
            leads_to(id),
        );
        lemma_name_kept(elements, links, walk, stepped(elements, walk, node), node, id);
    }
}

proof fn lemma_followed_keeps_name(
    elements: Seq<ElementInfo>,
    links: Seq<(Seq<char>, Seq<char>)>,
    i: int,
    walk: Walk,
    id: Seq<char>,
)
    requires
        element_ids_differ(elements),
        is_at(elements, links, walk, i, leads_to(id)),
        walk.visited.contains(elements[i].id),
        keeps_name(elements, links, walk, id),
    ensures
        followed(elements, links, i, walk) matches Some(after) ==> keeps_name(
            elements,
            links,
            after,
            id,
        ),
    decreases unvisited(elements, walk.visited),
{
    let here = elements[i].id;
    let p = leads_to(id);
    let ahead = targets(links, here);
    let kept = with_branches(links, here, walk);
    lemma_leaving_splits(links, here, walk, p);
    assert(is_sound(elements, kept));
    assert(keeps_name(elements, links, kept, id)) by {
        assert forall|n: int| 0 <= n < kept.pending.len() implies kept.visited.contains(
            (#[trigger] kept.pending[n]).0,
        ) && targets(links, kept.pending[n].0).len() > 1 by {
            if n < walk.pending.len() {
                assert(kept.pending[n] == walk.pending[n]);
            }
        }
    }
    if ahead.len() > 0 {
        lemma_target_is_linked(links, here, 0);
        let k = choose|k: int|
            0 <= k < links.len() && end_element((#[trigger] links[k]).0) == here && end_element(
                links[k].1,
            ) == ahead[0];
        assert(link_ends(links)[k] == (here, ahead[0]));
        lemma_position_of(elements, here);
        if walk.visited.contains(ahead[0]) {
            if ahead[0] == id {
                lemma_tally_is_not_negative(kept.pending, p);
                lemma_referred_is_named(elements, links, kept, here, id, 1);
            }
            lemma_reference_keeps_name(elements, links, kept, ahead[0], id);
        } else if let Some(j) = position_of(elements, ahead[0]) {
            lemma_position_of(elements, ahead[0]);
            lemma_filter_shrinks(elements, walk.visited, j);
            let named = is_named(links, elements[j].id);
            lemma_onto(elements, links, kept, j, named, p);
            lemma_step_keeps_name(elements, links, kept, j, id);
            lemma_followed_keeps_name(
                elements,
                links,
                j,
                stepped(elements, kept, Node::Element(j, named)),
                id,
            );
        }
    }
}

proof fn lemma_pending_keeps_name(
    elements: Seq<ElementInfo>,
    links: Seq<(Seq<char>, Seq<char>)>,
    walk: Walk,
    id: Seq<char>,
)
    requires
        element_ids_differ(elements),
        is_between(elements, links, walk, leads_to(id)),
        keeps_name(elements, links, walk, id),
    ensures
        after_pending(elements, links, walk) matches Some(after) ==> keeps_name(
            elements,
            links,
            after,
            id,
        ),
    decreases unvisited(elements, walk.visited), walk.pending.len(),
{
    let p = leads_to(id);
    if walk.pending.len() > 0 {
        let (from, to) = walk.pending[0];
        let taken = Walk { pending: walk.pending.skip(1), ..walk };
        let begun = started(elements, taken, Node::Reference(from));
        lemma_tally_first(walk.pending, p);
        lemma_tally_is_not_negative(taken.pending, p);
        lemma_sound_reference(elements, taken, from);
        lemma_node_added(elements, taken, Node::Reference(from));
        lemma_shown_node(nodes(taken.chains), Node::Reference(from));
        assert(link_ends(links).contains(walk.pending[0]));
        assert(walk.visited.contains(walk.pending[0].0));
        assert(position_of(elements, from) is Some);
        assert(pending_is_linked(elements, links, begun)) by {
            assert forall|n: int| 0 <= n < begun.pending.len() implies link_ends(links).contains(
                #[trigger] begun.pending[n],
            ) && position_of(elements, begun.pending[n].0) is Some by {
                assert(begun.pending[n] == walk.pending[n + 1]);
            }
        }
        assert(keeps_name(elements, links, taken, id)) by {
            assert forall|n: int| 0 <= n < taken.pending.len() implies taken.visited.contains(
                (#[trigger] taken.pending[n]).0,
            ) && targets(links, taken.pending[n].0).len() > 1 by {
                assert(taken.pending[n] == walk.pending[n + 1]);
            }
        }
        lemma_reference_keeps_name(elements, links, taken, from, id);
        if walk.visited.contains(to) {
            if to == id {
                lemma_referred_is_named(elements, links, walk, from, id, 0);
                let written = nodes(walk.chains);
                let j = choose|j: int|
                    0 <= j < written.len() && ((#[trigger] written[j]) matches Node::Element(
                        i,
                        named,
                    ) && named && elements[i].id == id);
                assert(nodes(begun.chains)[j] == written[j]);
                assert(named_in(elements, nodes(begun.chains), id));
            }
            lemma_onto_reference(elements, links, begun, to, p);
            lemma_reference_keeps_name(elements, links, begun, to, id);
            lemma_pending_keeps_name(
                elements,
                links,
                stepped(elements, begun, Node::Reference(to)),
                id,
            );
        } else if let Some(j) = position_of(elements, to) {
            lemma_position_of(elements, to);
            let named = is_named(links, elements[j].id);
            let onto = stepped(elements, begun, Node::Element(j, named));
            lemma_onto(elements, links, begun, j, named, p);
            lemma_step_keeps_name(elements, links, begun, j, id);
            lemma_followed(elements, links, j, onto, p);
            lemma_followed_pending(elements, links, j, onto);
            lemma_followed_keeps_name(elements, links, j, onto, id);
            if let Some(next) = followed(elements, links, j, onto) {
                lemma_filter_shrinks(elements, walk.visited, j);
                lemma_followed_grows(elements, links, j, onto);
                lemma_unvisited_shrinks(elements, onto.visited, next.visited);
                lemma_pending_keeps_name(elements, links, next, id);
            }
        }
    }
}

proof fn lemma_start_keeps_name(
    elements: Seq<ElementInfo>,
    links: Seq<(Seq<char>, Seq<char>)>,
    i: int,
    walk: Walk,
    id: Seq<char>,
)
    requires
        element_ids_differ(elements),
        is_between(elements, links, walk, leads_to(id)),
        keeps_name(elements, links, walk, id),
        0 <= i < elements.len(),
        !walk.visited.contains(elements[i].id),
    ensures
        after_start(elements, links, i, walk) matches Some(after) ==> keeps_name(
            elements,
            links,
            after,
            id,
        ),
{
    let p = leads_to(id);
    let named = is_named_start(elements, links, elements[i].id);
    let node = Node::Element(i, named);
    let begun = started(elements, walk, node);
    let seen = shown(nodes(walk.chains));
    lemma_sound_element(elements, walk, i, named);
    lemma_node_added(elements, walk, node);
    lemma_shown_node(nodes(walk.chains), node);
    assert(seen.push(i).drop_last() =~= seen);
    assert(is_at(elements, links, begun, i, p));
    lemma_name_kept(elements, links, walk, begun, node, id);
    lemma_followed_keeps_name(elements, links, i, begun, id);
}

proof fn lemma_sources_keep_name(
    elements: Seq<ElementInfo>,
    links: Seq<(Seq<char>, Seq<char>)>,
    n: int,
    id: Seq<char>,
)
    requires
        element_ids_differ(elements),
        0 <= n <= elements.len(),
    ensures
        after_sources(elements, links, n) matches Some(walk) ==> keeps_name(
            elements,
            links,
            walk,
            id,
        ),
    decreases n,
{
    if n > 0 {
        lemma_sources_keep_name(elements, links, n - 1, id);
        lemma_sources(elements, links, n - 1, leads_to(id));
        if let Some(walk) = after_sources(elements, links, n - 1) {
            if !walk.visited.contains(elements[n - 1].id) {
                lemma_start_keeps_name(elements, links, n - 1, walk, id);
            }
        }
    }
}

proof fn lemma_rest_keeps_name(
    elements: Seq<ElementInfo>,
    links: Seq<(Seq<char>, Seq<char>)>,
    walk: Walk,
    n: int,
    id: Seq<char>,
)
    requires
        element_ids_differ(elements),
        is_between(elements, links, walk, leads_to(id)),
        walk.pending.len() == 0,
        keeps_name(elements, links, walk, id),
        0 <= n <= elements.len(),
    ensures
        after_rest(elements, links, walk, n) matches Some(after) ==> keeps_name(
            elements,
            links,
            after,
            id,
        ),
    decreases n,
{
    if n > 0 {
        lemma_rest_keeps_name(elements, links, walk, n - 1, id);
        lemma_rest(elements, links, walk, n - 1, leads_to(id));
        if let Some(now) = after_rest(elements, links, walk, n - 1) {
            if !now.visited.contains(elements[n - 1].id) {
                lemma_start_keeps_name(elements, links, n - 1, now, id);
                lemma_start(elements, links, n - 1, now, leads_to(id));
                if let Some(next) = after_start(elements, links, n - 1, now) {
                    lemma_pending_keeps_name(elements, links, next, id);
                }
            }
        }
    }
}

/// Every reference in a written pipeline is to an element that it writes with
/// its name.
pub proof fn every_reference_is_to_a_name(
    elements: Seq<ElementInfo>,
    links: Seq<(Seq<char>, Seq<char>)>,
    id: Seq<char>,
)
    requires
        element_ids_differ(elements),
    ensures
        full_walk(elements, links) matches Some(walk) ==> (nodes(walk.chains).contains(
            Node::Reference(id),
        ) ==> named_in(elements, nodes(walk.chains), id)),
{
    let n = elements.len() as int;
    let p = leads_to(id);
    lemma_sources_keep_name(elements, links, n, id);
    lemma_sources(elements, links, n, p);
    if let Some(walk) = after_sources(elements, links, n) {
        lemma_pending_keeps_name(elements, links, walk, id);
        lemma_pending(elements, links, walk, p);
        if let Some(linked) = after_pending(elements, links, walk) {
            lemma_rest_keeps_name(elements, links, linked, n, id);
        }
    }
}

/// A connection that chains write leads to one of their nodes.
proof fn lemma_connection_leads_to_node(elements: Seq<ElementInfo>, chains: Seq<Chain>, n: int)
    requires
        0 <= n < connections(elements, chains).len(),
    ensures
        exists|j: int|
            0 <= j < nodes(chains).len() && node_id(elements, #[trigger] nodes(chains)[j])
                == connections(elements, chains)[n].1,
    decreases chains.len(),
{
    let init = chains.drop_last();
    let before = connections(elements, init);
    if n < before.len() {
        lemma_connection_leads_to_node(elements, init, n);
        let j = choose|j: int|
            0 <= j < nodes(init).len() && node_id(elements, #[trigger] nodes(init)[j])
                == before[n].1;
        assert(nodes(chains)[j] == nodes(init)[j]);
    } else {
        let m = n - before.len();
        lemma_chain_connection(elements, chains.last(), m);
        assert(nodes(chains)[nodes(init).len() + m + 1] == chains.last()[m + 1]);
    }
}

proof fn lemma_chain_connection(elements: Seq<ElementInfo>, chain: Chain, m: int)
    requires
        0 <= m < chain_connections(elements, chain).len(),
    ensures
        m + 1 < chain.len(),
        chain_connections(elements, chain)[m].1 == node_id(elements, chain[m + 1]),
        chain_connections(elements, chain).len() == chain.len() - 1,
    decreases chain.len(),
{
    if chain.len() >= 2 {
        let init = chain.drop_last();
        if chain_connections(elements, init).len() > 0 {
            lemma_chain_connection(
                elements,
                init,
                if m < chain_connections(elements, init).len() {
                    m
                } else {
                    0
                },
            );
        } else if init.len() >= 2 {
            assert(chain_connections(elements, init).len() > 0);
        }
    }
}

proof fn lemma_tally_finds(
    s: Seq<(Seq<char>, Seq<char>)>,
    x: (Seq<char>, Seq<char>),
    p: spec_fn((Seq<char>, Seq<char>)) -> bool,
)
    requires
        forall|y: (Seq<char>, Seq<char>)| #[trigger] p(y) <==> y == x,
    ensures
        tally(s, p) >= 1 <==> s.contains(x),
    decreases s.len(),
{
    if s.len() > 0 {
        let init = s.drop_last();
        lemma_tally_finds(init, x, p);
        lemma_tally_is_not_negative(init, p);
        if s.contains(x) && s.last() != x {
            let k = choose|k: int| 0 <= k < s.len() && s[k] == x;
            assert(init[k] == x);
        }
        if init.contains(x) {
            let k = choose|k: int| 0 <= k < init.len() && init[k] == x;
            assert(s[k] == x);
        }
        if s.last() == x {
            assert(s[s.len() - 1] == x);
        }
    }
}

proof fn lemma_owed_includes(
    elements: Seq<ElementInfo>,
    links: Seq<(Seq<char>, Seq<char>)>,
    seen: Seq<int>,
    p: spec_fn((Seq<char>, Seq<char>)) -> bool,
    k: int,
)
    requires
        0 <= k < seen.len(),
    ensures
        owed(elements, links, seen, p) >= tally(leaving(links, elements[seen[k]].id), p),
    decreases seen.len(),
{
    let init = seen.drop_last();
    if k < init.len() {
        lemma_owed_includes(elements, links, init, p, k);
        lemma_tally_is_not_negative(leaving(links, elements[seen.last()].id), p);
    } else {
        lemma_owed_is_not_negative(elements, links, init, p);
    }
}

proof fn lemma_owed_is_not_negative(
    elements: Seq<ElementInfo>,
    links: Seq<(Seq<char>, Seq<char>)>,
    seen: Seq<int>,
    p: spec_fn((Seq<char>, Seq<char>)) -> bool,
)
    ensures
        owed(elements, links, seen, p) >= 0,
    decreases seen.len(),
{
    if seen.len() > 0 {
        lemma_owed_is_not_negative(elements, links, seen.drop_last(), p);
        lemma_tally_is_not_negative(leaving(links, elements[seen.last()].id), p);
    }
}

/// A graph is written exactly where every connection that leaves one of its
/// elements leads to one.
pub proof fn graph_is_written_unless_a_connection_dangles(
    elements: Seq<ElementInfo>,
    links: Seq<(Seq<char>, Seq<char>)>,
)
    requires
        element_ids_differ(elements),
    ensures
        pipeline_text(elements, links) is Some <==> none_dangles(elements, links),
{
    every_element_is_written_once(elements, links);
    lemma_full_walk(elements, links, |x: (Seq<char>, Seq<char>)| true);
    if let Some(walk) = full_walk(elements, links) {
        let made = connections(elements, walk.chains);
        let written = nodes(walk.chains);
        let seen = shown(written);
        assert forall|k: int|
            0 <= k < links.len() && position_of(
                elements,
                end_element((#[trigger] links[k]).0),
            ) is Some implies position_of(elements, end_element(links[k].1)) is Some by {
            let from = end_element(links[k].0);
            let to = end_element(links[k].1);
            let p = |y: (Seq<char>, Seq<char>)| y == (from, to);
            lemma_full_walk(elements, links, p);
            lemma_position_of(elements, from);
            let i = position_of(elements, from)->0;
            assert(seen.contains(i));
            let m = choose|m: int| 0 <= m < seen.len() && seen[m] == i;
            lemma_owed_includes(elements, links, seen, p, m);
            lemma_link_leaves(links, k);
            lemma_tally_finds(leaving(links, from), (from, to), p);
            lemma_tally_finds(made, (from, to), p);
            let n = choose|n: int| 0 <= n < made.len() && made[n] == (from, to);
            lemma_connection_leads_to_node(elements, walk.chains, n);
            let j = choose|j: int|
                0 <= j < written.len() && node_id(elements, #[trigger] written[j]) == to;
            every_reference_is_to_a_name(elements, links, to);
            if written[j] is Reference {
                assert(written.contains(written[j]));
            }
            let e = choose|e: int|
                0 <= e < written.len() && ((#[trigger] written[e]) matches Node::Element(i, _)
                    && elements[i].id == to);
            let place = written[e]->Element_0;
            lemma_element_is_shown(written, e);
            assert(0 <= place < elements.len());
            lemma_position_of(elements, to);
        }
    }
}

proof fn lemma_element_is_shown(written: Seq<Node>, e: int)
    requires
        0 <= e < written.len(),
        written[e] is Element,
    ensures
        shown(written).contains(written[e]->Element_0),
    decreases written.len(),
{
    let init = written.drop_last();
    let i = written[e]->Element_0;
    if e < init.len() {
        lemma_element_is_shown(init, e);
        if let Node::Element(last, _) = written.last() {
            lemma_shown_push(shown(init), last, i);
        }
    } else {
        lemma_shown_push(shown(init), i, i);
    }
}

/// A connection of a graph is among those that leave its element.
proof fn lemma_link_leaves(links: Seq<(Seq<char>, Seq<char>)>, k: int)
    requires
        0 <= k < links.len(),
    ensures
        leaving(links, end_element(links[k].0)).contains(
            (end_element(links[k].0), end_element(links[k].1)),
        ),
{
    let id = end_element(links[k].0);
    let to = end_element(links[k].1);
    let pick = |l: (Seq<char>, Seq<char>)|
        if end_element(l.0) == id {
            Some(end_element(l.1))
        } else {
            None
        };
    sequences::lemma_filter_map_holds(links, pick, k, links.len() as int);
    assert(links.take(links.len() as int) =~= links);
    let ahead = targets(links, id);
    let n = choose|n: int| 0 <= n < ahead.len() && ahead[n] == to;
    assert(leaving(links, id)[n] == (id, to));
}

/// What a request to export a graph without elements is told.
pub const NOTHING_TO_EXPORT: &'static str = "No elements to export";

/// Why a graph is not exported.
#[derive(Clone, Copy, Debug, PartialEq, Eq, Structural)]
pub enum ExportError {
    /// There are no elements.
    Empty,
    /// A connection leads to something that is no element.
    DanglingLink,
}

/// Exports a graph in `gst-launch-1.0` syntax.
pub fn export_gst_launch(elements: &Vec<Element>, links: &Vec<Link>) -> (r: Result<
    String,
    ExportError,
>)
    ensures
        if elements@.len() == 0 {
            r == Err::<String, ExportError>(ExportError::Empty)
        } else {
            match pipeline_text(element_infos(elements@), link_infos(links@)) {
                Some(out) => r matches Ok(s) && s@ == out,
                None => r == Err::<String, ExportError>(ExportError::DanglingLink),
            }
        },
{
    if elements.len() == 0 {
        return Err(ExportError::Empty);
    }
    match elements_to_gst_launch(elements, links) {
        Some(s) => Ok(s),
        None => Err(ExportError::DanglingLink),
    }
}

// ---------------------------------------------------------------------------
// Reading a parsed pipeline
// ---------------------------------------------------------------------------

/// The other end of a pad's connection.
pub struct Peer {
    /// The name of the element that the other pad is on.
    pub element: String,
    pub pad: String,
    /// How many pads of the same direction the other element has.
    pub siblings: usize,
}

/// A source pad of a parsed element.
pub struct SourcePad {
    pub name: String,
    pub peer: Option<Peer>,
}

/// An element of a parsed pipeline.
pub struct ParsedElement {
    pub name: String,
    /// The name of its factory, where it has one.
    pub factory: Option<String>,
    pub src_pads: Vec<SourcePad>,
    /// How many source pads it has in all.
    pub src_siblings: usize,
}

/// The other end of a connection: element, pad, and how many pads of its
/// direction the element has.
pub type PeerInfo = (Seq<char>, Seq<char>, usize);

pub struct ParsedInfo {
    pub name: Seq<char>,
    pub factory: Option<Seq<char>>,
    pub src_pads: Seq<(Seq<char>, Option<PeerInfo>)>,
    pub src_siblings: usize,
}

impl View for SourcePad {
    type V = (Seq<char>, Option<PeerInfo>);

    open spec fn view(&self) -> (Seq<char>, Option<PeerInfo>) {
        (
            self.name@,
            match self.peer {
                Some(peer) => Some((peer.element@, peer.pad@, peer.siblings)),
                None => None,
            },
        )
    }
}

impl View for ParsedElement {
    type V = ParsedInfo;

    open spec fn view(&self) -> ParsedInfo {
        ParsedInfo {
            name: self.name@,
            factory: match self.factory {
                Some(f) => Some(f@),
                None => None,
            },
            src_pads: self.src_pads@.map_values(|p: SourcePad| p@),
            src_siblings: self.src_siblings,
        }
    }
}

pub open spec fn parsed_infos(v: Seq<ParsedElement>) -> Seq<ParsedInfo> {
    v.map_values(|e: ParsedElement| e@)
}

/// The id of an element: its type and its position where its name is its type
/// with something behind it, as names are that the pipeline gives by itself,
/// else its name.
pub open spec fn readable_id(name: Seq<char>, kind: Seq<char>, position: int) -> Seq<char> {
    if text::has_prefix(name, kind) && name.len() > kind.len() {
        kind + "_"@ + text::decimal(position as nat)
    } else {
        name
    }
}

/// The id of an element of a parsed pipeline.
pub fn element_id(name: &str, kind: &str, position: usize) -> (r: String)
    ensures
        r@ == readable_id(name@, kind@, position as int),
{
    let n = text::chars_of(name);
    let k = text::chars_of(kind);
    if text::starts_with(name, kind) && n.len() > k.len() {
        let number = text::usize_text(position);
        kind.to_owned().concat("_").concat(number.as_str())
    } else {
        name.to_owned()
    }
}

/// The names of a parsed pipeline's elements and the ids that they get, as far
/// as the elements have a factory.
pub open spec fn known_ids(elements: Seq<ParsedInfo>, n: int) -> Seq<(Seq<char>, Seq<char>)>
    decreases n,
{
    if n <= 0 {
        Seq::empty()
    } else {
        let e = elements[n - 1];
        match e.factory {
            Some(kind) => seq![(e.name, readable_id(e.name, kind, n - 1))] + known_ids(
                elements,
                n - 1,
            ),
            None => known_ids(elements, n - 1),
        }
    }
}

/// An end of a connection as it is written: with the pad's name where the
/// element has several pads of the direction.
pub open spec fn end_text(id: Seq<char>, pad: Seq<char>, siblings: usize) -> Seq<char> {
    if siblings > 1 {
        id + ":"@ + pad
    } else {
        id
    }
}

/// A connection that was found: the two elements, and how its ends are
/// written.
pub struct Edge {
    pub from_id: Seq<char>,
    pub to_id: Seq<char>,
    pub from: Seq<char>,
    pub to: Seq<char>,
}

/// The connections with one more, unless the two elements are connected
/// already.
pub open spec fn with_edge(edges: Seq<Edge>, edge: Edge) -> Seq<Edge> {
    if exists|i: int|
        0 <= i < edges.len() && (#[trigger] edges[i]).from_id == edge.from_id && edges[i].to_id
            == edge.to_id {
        edges
    } else {
        edges.push(edge)
    }
}

/// The connections after the first `n` source pads of an element.
pub open spec fn edges_of_pads(
    ids: Seq<(Seq<char>, Seq<char>)>,
    e: ParsedInfo,
    from_id: Seq<char>,
    edges: Seq<Edge>,
    n: int,
) -> Seq<Edge>
    decreases n,
{
    if n <= 0 {
        edges
    } else {
        let before = edges_of_pads(ids, e, from_id, edges, n - 1);
        let (pad, peer) = e.src_pads[n - 1];
        match peer {
            Some((element, other, siblings)) => match text::lookup(ids, element) {
                Some(to_id) => with_edge(
                    before,
                    Edge {
                        from_id,
                        to_id,
                        from: end_text(from_id, pad, e.src_siblings),
                        to: end_text(to_id, other, siblings),
                    },
                ),
                None => before,
            },
            None => before,
        }
    }
}

/// The connections after the first `n` elements.
pub open spec fn edges_of_elements(
    ids: Seq<(Seq<char>, Seq<char>)>,
    elements: Seq<ParsedInfo>,
    n: int,
) -> Seq<Edge>
    decreases n,
{
    if n <= 0 {
        Seq::empty()
    } else {
        let before = edges_of_elements(ids, elements, n - 1);
        let e = elements[n - 1];
        match text::lookup(ids, e.name) {
            Some(from_id) => edges_of_pads(ids, e, from_id, before, e.src_pads.len() as int),
            None => before,
        }
    }
}

/// The connections of a parsed pipeline, each pair of elements once.
pub open spec fn parsed_links(elements: Seq<ParsedInfo>) -> Seq<(Seq<char>, Seq<char>)> {
    let ids = known_ids(elements, elements.len() as int);
    edges_of_elements(ids, elements, elements.len() as int).map_values(|e: Edge| (e.from, e.to))
}

pub open spec fn pair_texts(v: Seq<(String, String)>) -> Seq<(Seq<char>, Seq<char>)> {
    v.map_values(|p: (String, String)| (p.0@, p.1@))
}

fn lookup_text(pairs: &Vec<(String, String)>, name: &str) -> (r: Option<String>)
    ensures
        r matches Some(s) ==> text::lookup(pair_texts(pairs@), name@) == Some(s@),
        r is None ==> text::lookup(pair_texts(pairs@), name@) is None,
{
    let ghost all = pair_texts(pairs@);
    let mut i: usize = 0;
    proof {
        assert(all.skip(0) =~= all);
    }
    while i < pairs.len()
        invariant
            i <= pairs.len(),
            all == pair_texts(pairs@),
            text::lookup(all.skip(i as int), name@) == text::lookup(all, name@),
        decreases pairs.len() - i,
    {
        proof {
            text::lemma_lookup_skip(all, name@, i as int);
            assert(all[i as int] == (pairs@[i as int].0@, pairs@[i as int].1@));
        }
        if text::same(pairs[i].0.as_str(), name) {
            return Some(pairs[i].1.clone());
        }
        i += 1;
    }
    None
}

/// The names of a parsed pipeline's elements and the ids that they get. Of two
/// elements with the same name the later one counts.
pub fn ids_by_name(elements: &Vec<ParsedElement>) -> (r: Vec<(String, String)>)
    ensures
        pair_texts(r@) == known_ids(parsed_infos(elements@), elements@.len() as int),
{
    let ghost infos = parsed_infos(elements@);
    let mut out: Vec<(String, String)> = Vec::new();
    let mut i: usize = 0;
    proof {
        assert(pair_texts(out@) =~= Seq::<(Seq<char>, Seq<char>)>::empty());
    }
    while i < elements.len()
        invariant
            i <= elements.len(),
            infos == parsed_infos(elements@),
            pair_texts(out@) == known_ids(infos, i as int),
        decreases elements.len() - i,
    {
        let e = &elements[i];
        assert(infos[i as int] == e@);
        match &e.factory {
            Some(kind) => {
                let ghost before = pair_texts(out@);
                let id = element_id(e.name.as_str(), kind.as_str(), i);
                let ghost pair = (e.name@, id@);
                out.insert(0, (e.name.clone(), id));
                assert(pair_texts(out@) =~= seq![pair] + before);
            },
            None => {},
        }
        i += 1;
    }
    out
}

/// A connection that was found.
struct FoundEdge {
    from_id: String,
    to_id: String,
    from: String,
    to: String,
}

spec fn edge_infos(v: Seq<FoundEdge>) -> Seq<Edge> {
    v.map_values(
        |e: FoundEdge|
            Edge { from_id: e.from_id@, to_id: e.to_id@, from: e.from@, to: e.to@ },
    )
}

fn add_edge(edges: &mut Vec<FoundEdge>, edge: FoundEdge)
    ensures
        edge_infos(final(edges)@) == with_edge(
            edge_infos(old(edges)@),
            (Edge { from_id: edge.from_id@, to_id: edge.to_id@, from: edge.from@, to: edge.to@ }),
        ),
{
    let ghost before = edge_infos(edges@);
    let ghost info = Edge {
        from_id: edge.from_id@,
        to_id: edge.to_id@,
        from: edge.from@,
        to: edge.to@,
    };
    let mut i: usize = 0;
    while i < edges.len()
        invariant
            i <= edges.len(),
            before == edge_infos(edges@),
            edges@ == old(edges)@,
            info.from_id == edge.from_id@,
            info.to_id == edge.to_id@,
            forall|j: int|
                0 <= j < i ==> !((#[trigger] before[j]).from_id == info.from_id && before[j].to_id
                    == info.to_id),
        decreases edges.len() - i,
    {
        assert(before[i as int].from_id == edges@[i as int].from_id@);
        if text::same(edges[i].from_id.as_str(), edge.from_id.as_str()) && text::same(
            edges[i].to_id.as_str(),
            edge.to_id.as_str(),
        ) {
            return;
        }
        i += 1;
    }
    edges.push(edge);
    assert(edge_infos(edges@) =~= before.push(info));
}

fn write_end(id: &str, pad: &str, siblings: usize) -> (r: String)
    ensures
        r@ == end_text(id@, pad@, siblings),
{
    if siblings > 1 {
        id.to_owned().concat(":").concat(pad)
    } else {
        id.to_owned()
    }
}

/// The connections of a parsed pipeline, each pair of elements once.
pub fn links_of_parsed(elements: &Vec<ParsedElement>) -> (r: Vec<(String, String)>)
    ensures
        pair_texts(r@) == parsed_links(parsed_infos(elements@)),
{
    let ghost infos = parsed_infos(elements@);
    let known = ids_by_name(elements);
    let ghost ids = pair_texts(known@);
    let mut edges: Vec<FoundEdge> = Vec::new();
    let mut i: usize = 0;
    proof {
        assert(edge_infos(edges@) =~= Seq::<Edge>::empty());
    }
    while i < elements.len()
        invariant
            i <= elements.len(),
            infos == parsed_infos(elements@),
            ids == pair_texts(known@),
            edge_infos(edges@) == edges_of_elements(ids, infos, i as int),
        decreases elements.len() - i,
    {
        let e = &elements[i];
        assert(infos[i as int] == e@);
        match lookup_text(&known, e.name.as_str()) {
            Some(from_id) => {
                let ghost before = edge_infos(edges@);
                let mut k: usize = 0;
                while k < e.src_pads.len()
                    invariant
                        k <= e.src_pads.len(),
                        ids == pair_texts(known@),
                        edge_infos(edges@) == edges_of_pads(ids, e@, from_id@, before, k as int),
                    decreases e.src_pads.len() - k,
                {
                    assert(e@.src_pads[k as int] == e.src_pads@[k as int]@);
                    match &e.src_pads[k].peer {
                        Some(peer) => match lookup_text(&known, peer.element.as_str()) {
                            Some(to_id) => {
                                let from = write_end(
                                    from_id.as_str(),
                                    e.src_pads[k].name.as_str(),
                                    e.src_siblings,
                                );
                                let to = write_end(to_id.as_str(), peer.pad.as_str(), peer.siblings);
                                add_edge(
                                    &mut edges,
                                    FoundEdge { from_id: from_id.clone(), to_id, from, to },
                                );
                            },
                            None => {},
                        },
                        None => {},
                    }
                    k += 1;
                }
                assert(e@.src_pads.len() == e.src_pads.len());
            },
            None => {},
        }
        i += 1;
    }
    let ghost found = edge_infos(edges@).map_values(|e: Edge| (e.from, e.to));
    let mut out: Vec<(String, String)> = Vec::new();
    let mut m: usize = 0;
    proof {
        assert(pair_texts(out@) =~= found.take(0));
        assert(infos.len() == elements.len());
    }
    while m < edges.len()
        invariant
            m <= edges.len(),
            found == edge_infos(edges@).map_values(|e: Edge| (e.from, e.to)),
            pair_texts(out@) == found.take(m as int),
        decreases edges.len() - m,
    {
        let ghost before = pair_texts(out@);
        let ghost pair = (edges@[m as int].from@, edges@[m as int].to@);
        out.push((edges[m].from.clone(), edges[m].to.clone()));
        proof {
            assert(pair_texts(out@) =~= before.push(pair));
            assert(found.take(m + 1) =~= found.take(m as int).push(found[m as int]));
        }
        m += 1;
    }
    proof {
        assert(found.take(found.len() as int) =~= found);
    }
    out
}

/// Two elements are connected at most once.
pub open spec fn pairs_differ(edges: Seq<Edge>) -> bool {
    forall|i: int, j: int|
        0 <= i < j < edges.len() ==> !((#[trigger] edges[i]).from_id == (
        #[trigger] edges[j]).from_id && edges[i].to_id == edges[j].to_id)
}

proof fn lemma_pads_keep_pairs_apart(
    ids: Seq<(Seq<char>, Seq<char>)>,
    e: ParsedInfo,
    from_id: Seq<char>,
    edges: Seq<Edge>,
    n: int,
)
    requires
        pairs_differ(edges),
    ensures
        pairs_differ(edges_of_pads(ids, e, from_id, edges, n)),
    decreases n,
{
    if n > 0 {
        lemma_pads_keep_pairs_apart(ids, e, from_id, edges, n - 1);
    }
}

/// No two elements of a parsed pipeline are connected twice.
pub proof fn parsed_pairs_differ(
    ids: Seq<(Seq<char>, Seq<char>)>,
    elements: Seq<ParsedInfo>,
    n: int,
)
    ensures
        pairs_differ(edges_of_elements(ids, elements, n)),
    decreases n,
{
    if n > 0 {
        parsed_pairs_differ(ids, elements, n - 1);
        let e = elements[n - 1];
        if let Some(from_id) = text::lookup(ids, e.name) {
            lemma_pads_keep_pairs_apart(
                ids,
                e,
                from_id,
                edges_of_elements(ids, elements, n - 1),
                e.src_pads.len() as int,
            );
        }
    }
}

// ---------------------------------------------------------------------------
// Property values of a parsed element
// ---------------------------------------------------------------------------

/// A property's value as GStreamer holds it. Fractional numbers are held as
/// the bits of their double-precision form.
pub enum GstValue {
    I32(i32),
    I64(i64),
    U32(u32),
    U64(u64),
    F32(u64),
    F64(u64),
    Bool(bool),
    Text(String),
    /// A text that is not set.
    NoText,
    /// Any other type.
    Other,
}

/// The value as a block property. What is unset or of another type has none.
pub open spec fn converted(value: GstValue) -> Option<PropertyTree> {
    match value {
        GstValue::I32(n) => Some(PropertyTree::Int(n as i64)),
        GstValue::I64(n) => Some(PropertyTree::Int(n)),
        GstValue::U32(n) => Some(PropertyTree::UInt(n as u64)),
        GstValue::U64(n) => Some(PropertyTree::UInt(n)),
        GstValue::F32(bits) | GstValue::F64(bits) => Some(PropertyTree::Float(bits)),
        GstValue::Bool(b) => Some(PropertyTree::Bool(b)),
        GstValue::Text(s) => Some(PropertyTree::Text(s@)),
        GstValue::NoText | GstValue::Other => None,
    }
}

/// Converts a value to a block property.
pub fn gvalue_to_property_value(value: &GstValue) -> (r: Option<PropertyValue>)
    ensures
        (match r {
            Some(v) => Some(v@),
            None => None,
        }) == converted(*value),
{
    match value {
        GstValue::I32(n) => Some(PropertyValue::Int(*n as i64)),
        GstValue::I64(n) => Some(PropertyValue::Int(*n)),
        GstValue::U32(n) => Some(PropertyValue::UInt(*n as u64)),
        GstValue::U64(n) => Some(PropertyValue::UInt(*n)),
        GstValue::F32(bits) => Some(PropertyValue::Float(*bits)),
        GstValue::F64(bits) => Some(PropertyValue::Float(*bits)),
        GstValue::Bool(b) => Some(PropertyValue::Bool(*b)),
        GstValue::Text(s) => Some(PropertyValue::String(s.clone())),
        GstValue::NoText => None,
        GstValue::Other => None,
    }
}

/// Two values are the same. Fractional numbers are close where `close` says
/// so; values of different or other types are never the same.
pub open spec fn same_value(a: GstValue, b: GstValue, close: bool) -> bool {
    match (a, b) {
        (GstValue::I32(x), GstValue::I32(y)) => x == y,
        (GstValue::I64(x), GstValue::I64(y)) => x == y,
        (GstValue::U32(x), GstValue::U32(y)) => x == y,
        (GstValue::U64(x), GstValue::U64(y)) => x == y,
        (GstValue::F32(_), GstValue::F32(_)) => close,
        (GstValue::F64(_), GstValue::F64(_)) => close,
        (GstValue::Bool(x), GstValue::Bool(y)) => x == y,
        (GstValue::Text(x), GstValue::Text(y)) => x@ == y@,
        (GstValue::NoText, GstValue::NoText) => true,
        _ => false,
    }
}

/// Whether two values are the same; `close` says whether they are fractional
/// numbers that differ by less than the smallest step.
pub fn values_equal(a: &GstValue, b: &GstValue, close: bool) -> (r: bool)
    ensures
        r == same_value(*a, *b, close),
{
    match (a, b) {
        (GstValue::I32(x), GstValue::I32(y)) => *x == *y,
        (GstValue::I64(x), GstValue::I64(y)) => *x == *y,
        (GstValue::U32(x), GstValue::U32(y)) => *x == *y,
        (GstValue::U64(x), GstValue::U64(y)) => *x == *y,
        (GstValue::F32(_), GstValue::F32(_)) => close,
        (GstValue::F64(_), GstValue::F64(_)) => close,
        (GstValue::Bool(x), GstValue::Bool(y)) => *x == *y,
        (GstValue::Text(x), GstValue::Text(y)) => text::same(x.as_str(), y.as_str()),
        (GstValue::NoText, GstValue::NoText) => true,
        _ => false,
    }
}

/// Whether a property of a parsed element is part of the graph: one that can
/// be written, is no name or parent, and differs from its default.
pub fn keeps_property(name: &str, writable: bool, is_default: bool) -> (r: bool)
    ensures
        r == (writable && !is_default && name@ != "name"@ && name@ != "parent"@),
{
    writable && !is_default && !text::same(name, "name") && !text::same(name, "parent")
}

} // verus!
