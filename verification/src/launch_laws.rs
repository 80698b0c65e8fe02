//! What a written pipeline says: laws on values, elements and chains in
//! `gst-launch-1.0` syntax, and on the graph that is read off a parsed one.

use crate::gst_launch;
use crate::gst_launch::{Edge, ElementInfo, GstValue, Node, ParsedInfo, ValueInfo, Walk};
use crate::properties::PropertyTree;
use crate::sequences;
use crate::text;
use vstd::prelude::*;

verus! {

// ---------------------------------------------------------------------------
// Values
// ---------------------------------------------------------------------------

/// True is written as `true` and false as `false`, so the two are told apart.
pub proof fn booleans_are_written_as_they_are(b: bool)
    ensures
        gst_launch::value_text(ValueInfo::Bool(b)) == if b {
            seq!['t', 'r', 'u', 'e']
        } else {
            seq!['f', 'a', 'l', 's', 'e']
        },
        gst_launch::value_text(ValueInfo::Bool(b)) != gst_launch::value_text(ValueInfo::Bool(!b)),
{
    reveal_strlit("true");
    reveal_strlit("false");
    assert("true"@ =~= seq!['t', 'r', 'u', 'e']);
    assert("false"@ =~= seq!['f', 'a', 'l', 's', 'e']);
    assert("true"@.len() != "false"@.len());
}

/// A whole number is written in digits that read back as it, behind a minus
/// sign where it is below zero; a fraction is written as it stands.
pub proof fn numbers_read_back(n: i64, m: u64, fraction: Seq<char>)
    ensures
        text::digits_value(gst_launch::value_text(ValueInfo::UInt(m))) == m,
        n >= 0 ==> text::digits_value(gst_launch::value_text(ValueInfo::Int(n))) == n,
        n < 0 ==> gst_launch::value_text(ValueInfo::Int(n))[0] == '-' && text::digits_value(
            gst_launch::value_text(ValueInfo::Int(n)).skip(1),
        ) == -n,
        gst_launch::value_text(ValueInfo::Float(fraction)) == fraction,
{
    text::parse_reads_decimal(m as nat, m as nat);
    if n >= 0 {
        text::parse_reads_decimal(n as nat, n as nat);
    } else {
        let digits = text::decimal((-n) as nat);
        text::parse_reads_decimal((-n) as nat, (-n) as nat);
        assert((seq!['-'] + digits).skip(1) =~= digits);
    }
}

/// A text without the backslashes that stand before double quotes.
pub open spec fn unescaped(s: Seq<char>) -> Seq<char>
    decreases s.len(),
{
    if s.len() == 0 {
        Seq::empty()
    } else if s.len() >= 2 && s.last() == '"' && s[s.len() - 2] == '\\' {
        unescaped(s.take(s.len() - 2)).push('"')
    } else {
        unescaped(s.drop_last()).push(s.last())
    }
}

/// A character that would end a word or change its meaning.
pub open spec fn is_special(c: char) -> bool {
    c == ' ' || c == '!' || c == '='
}

/// A text that holds a special character is written between double quotes,
/// and reads back; any other text is written as it is.
pub proof fn texts_read_back(s: Seq<char>)
    ensures
        ({
            let out = gst_launch::value_text(ValueInfo::Text(s));
            if exists|i: int| 0 <= i < s.len() && is_special(#[trigger] s[i]) {
                &&& out.len() >= 2
                &&& out[0] == '"'
                &&& out.last() == '"'
                &&& unescaped(out.subrange(1, out.len() - 1)) == s
            } else {
                out == s
            }
        }),
{
    let out = gst_launch::value_text(ValueInfo::Text(s));
    lemma_escaped(s);
    reveal_strlit("\"");
    if exists|i: int| 0 <= i < s.len() && is_special(#[trigger] s[i]) {
        let i = choose|i: int| 0 <= i < s.len() && is_special(#[trigger] s[i]);
        assert(s.contains(s[i]));
        assert(out.subrange(1, out.len() - 1) =~= gst_launch::escaped(s));
    } else {
        assert forall|c: char| is_special(c) implies !#[trigger] s.contains(c) by {
            if s.contains(c) {
                let i = choose|i: int| 0 <= i < s.len() && s[i] == c;
                assert(is_special(s[i]));
            }
        }
        assert(is_special(' ') && is_special('!') && is_special('='));
    }
}

proof fn lemma_escaped(s: Seq<char>)
    ensures
        unescaped(gst_launch::escaped(s)) == s,
    decreases s.len(),
{
    if s.len() > 0 {
        let init = s.drop_last();
        lemma_escaped(init);
        let before = gst_launch::escaped(init);
        let all = gst_launch::escaped(s);
        if s.last() == '"' {
            assert(all.take(all.len() - 2) =~= before);
        } else {
            assert(all.drop_last() =~= before);
        }
        assert(s =~= init.push(s.last()));
    }
}

// ---------------------------------------------------------------------------
// Elements and chains
// ---------------------------------------------------------------------------

/// An element is written as its type, then `name=` and its id where others
/// refer to it, and then its properties in order, each as `name=value`.
pub proof fn element_is_type_name_and_properties(
    e: ElementInfo,
    named: bool,
    property: Seq<char>,
    value: ValueInfo,
)
    ensures
        e.properties.len() == 0 && !named ==> gst_launch::element_text(e, named) == e.element_type,
        e.properties.len() == 0 && named ==> gst_launch::element_text(e, named) == e.element_type
            + " name="@ + e.id,
        gst_launch::element_text(
            ElementInfo { properties: e.properties.push((property, value)), ..e },
            named,
        ) == gst_launch::element_text(e, named) + " "@ + property + "="@ + gst_launch::value_text(
            value,
        ),
{
    reveal_strlit(" ");
    reveal_strlit("name=");
    reveal_strlit(" name=");
    let words = gst_launch::element_words(e, named);
    if e.properties.len() == 0 {
        if named {
            assert(words =~= seq![e.element_type, "name="@ + e.id]);
            assert(words.drop_last() =~= seq![e.element_type]);
            assert(text::join(seq![e.element_type], " "@) == e.element_type);
            assert(gst_launch::element_text(e, named) =~= e.element_type + " name="@ + e.id);
        } else {
            assert(words =~= seq![e.element_type]);
        }
    }
    let longer = ElementInfo { properties: e.properties.push((property, value)), ..e };
    let word = property + "="@ + gst_launch::value_text(value);
    assert(gst_launch::element_words(longer, named) =~= words.push(word));
    text::lemma_join_push(words, " "@, word);
    assert(gst_launch::element_text(longer, named) =~= gst_launch::element_text(e, named) + " "@
        + property + "="@ + gst_launch::value_text(value));
}

/// A chain starts with its first element or reference, and goes on with an
/// exclamation mark before each further one. A reference is an id with a dot.
/// Every chain but the first stands on a new line.
pub proof fn chains_are_written_in_order(
    elements: Seq<ElementInfo>,
    chains: Seq<Seq<Node>>,
    chain: Seq<Node>,
    i: int,
    named: bool,
    id: Seq<char>,
)
    ensures
        gst_launch::chain_text(elements, seq![Node::Element(i, named)])
            == gst_launch::element_text(elements[i], named),
        gst_launch::chain_text(elements, seq![Node::Reference(id)]) == id + "."@,
        chain.len() > 0 ==> gst_launch::chain_text(elements, chain.push(Node::Element(i, named)))
            == gst_launch::chain_text(elements, chain) + " ! "@ + gst_launch::element_text(
            elements[i],
            named,
        ),
        chain.len() > 0 ==> gst_launch::chain_text(elements, chain.push(Node::Reference(id)))
            == gst_launch::chain_text(elements, chain) + " ! "@ + id + ". "@,
        gst_launch::chains_text(elements, seq![chain]) == gst_launch::chain_text(elements, chain),
        gst_launch::chains_text(elements, chains).len() > 0 ==> gst_launch::chains_text(
            elements,
            chains.push(chain),
        ) == gst_launch::chains_text(elements, chains) + " \\\n  "@ + gst_launch::chain_text(
            elements,
            chain,
        ),
{
    let element = Node::Element(i, named);
    let reference = Node::Reference(id);
    assert(chain.push(element).drop_last() =~= chain);
    assert(chain.push(reference).drop_last() =~= chain);
    if chain.len() > 0 {
        assert(gst_launch::chain_text(elements, chain.push(reference)) =~= gst_launch::chain_text(
            elements,
            chain,
        ) + " ! "@ + id + ". "@);
    }
    assert(seq![chain].drop_last() =~= Seq::<Seq<Node>>::empty());
    assert(gst_launch::chains_text(elements, Seq::<Seq<Node>>::empty()) =~= Seq::<char>::empty());
    assert(gst_launch::chains_text(elements, seq![chain]) =~= gst_launch::chain_text(
        elements,
        chain,
    ));
    assert(chains.push(chain).drop_last() =~= chains);
}

/// The connections of elements that follow one another.
pub open spec fn in_line(elements: Seq<ElementInfo>) -> Seq<(Seq<char>, Seq<char>)> {
    Seq::new((elements.len() - 1) as nat, |k: int| (elements[k].id, elements[k + 1].id))
}

/// The first `n` elements, written one after another.
pub open spec fn line_text(elements: Seq<ElementInfo>, n: nat) -> Seq<char>
    decreases n,
{
    if n <= 1 {
        gst_launch::element_text(elements[0], false)
    } else {
        line_text(elements, (n - 1) as nat) + " ! "@ + gst_launch::element_text(
            elements[n - 1],
            false,
        )
    }
}

/// Elements that follow one another are written as one chain, in order and
/// without names.
pub proof fn line_is_one_chain(elements: Seq<ElementInfo>)
    requires
        elements.len() > 0,
        gst_launch::element_ids_differ(elements),
        forall|i: int| 0 <= i < elements.len() ==> !(#[trigger] elements[i]).id.contains(':'),
    ensures
        gst_launch::pipeline_text(elements, in_line(elements)) == Some(
            line_text(elements, elements.len()),
        ),
{
    let links = in_line(elements);
    let n = elements.len() as int;
    let empty = Walk { visited: Set::empty(), chains: Seq::empty(), pending: Seq::empty() };
    let first = gst_launch::started(elements, empty, Node::Element(0, false));
    assert forall|i: int| 0 <= i < n implies #[trigger] lined(elements, i) by {
        lemma_lined(elements, i);
    }
    assert(lined(elements, 0));
    assert(!gst_launch::led_to(elements, links, elements[0].id)) by {
        if gst_launch::led_to(elements, links, elements[0].id) {
            let k = choose|k: int|
                0 <= k < links.len() && gst_launch::end_element((#[trigger] links[k]).1)
                    == elements[0].id && gst_launch::position_of(
                    elements,
                    gst_launch::end_element(links[k].0),
                ) is Some;
            lemma_bare_end(elements[k + 1].id);
            assert(elements[0].id != elements[k + 1].id);
        }
    }
    assert(seq![Node::Element(0, false)] =~= line_chain(1));
    assert(first.chains =~= seq![line_chain(1)]);
    lemma_follows_line(elements, 0, first);
    let whole = gst_launch::followed(elements, links, 0, first)->0;
    lemma_sources_of_line(elements, n, whole);
    lemma_rest_of_line(elements, whole, n);
    lemma_line_text(elements, elements.len());
    assert(gst_launch::chains_text(elements, seq![line_chain(elements.len())])
        == gst_launch::chain_text(elements, line_chain(elements.len()))) by {
        chains_are_written_in_order(
            elements,
            Seq::empty(),
            line_chain(elements.len()),
            0,
            false,
            Seq::empty(),
        );
    }
}

/// The first `n` elements, one after another.
spec fn line_chain(n: nat) -> Seq<Node> {
    Seq::new(n, |k: int| Node::Element(k, false))
}

/// An element of a line has the connections of its place there.
spec fn lined(elements: Seq<ElementInfo>, i: int) -> bool {
    let links = in_line(elements);
    let id = elements[i].id;
    &&& gst_launch::targets(links, id) == (if i < elements.len() - 1 {
        seq![elements[i + 1].id]
    } else {
        Seq::<Seq<char>>::empty()
    })
    &&& gst_launch::origins(links, id).len() == (if i > 0 {
        1nat
    } else {
        0
    })
    &&& gst_launch::position_of(elements, id) == Some(i)
}

proof fn lemma_bare_end(id: Seq<char>)
    requires
        !id.contains(':'),
    ensures
        gst_launch::end_element(id) == id,
{
    assert(text::join(seq![id], seq![':']) == id);
    assert forall|i: int| 0 <= i < seq![id].len() implies !(#[trigger] seq![id][i]).contains(':') by {}
    text::split_undoes_join(seq![id], ':');
}

proof fn lemma_lined(elements: Seq<ElementInfo>, i: int)
    requires
        0 <= i < elements.len(),
        gst_launch::element_ids_differ(elements),
        forall|i: int| 0 <= i < elements.len() ==> !(#[trigger] elements[i]).id.contains(':'),
    ensures
        lined(elements, i),
{
    let links = in_line(elements);
    let id = elements[i].id;
    let ahead = |l: (Seq<char>, Seq<char>)|
        if gst_launch::end_element(l.0) == id {
            Some(gst_launch::end_element(l.1))
        } else {
            None::<Seq<char>>
        };
    let behind = |l: (Seq<char>, Seq<char>)|
        if gst_launch::end_element(l.1) == id {
            Some(gst_launch::end_element(l.0))
        } else {
            None::<Seq<char>>
        };
    assert forall|k: int| 0 <= k < links.len() implies gst_launch::end_element(
        (#[trigger] links[k]).0,
    ) == elements[k].id && gst_launch::end_element(links[k].1) == elements[k + 1].id by {
        lemma_bare_end(elements[k].id);
        lemma_bare_end(elements[k + 1].id);
    }
    assert forall|k: int| 0 <= k < links.len() && k != i implies ahead(#[trigger] links[k]) is None by {
        if k < i {
            assert(elements[k].id != elements[i].id);
        } else {
            assert(elements[i].id != elements[k].id);
        }
    }
    assert forall|k: int| 0 <= k < links.len() && k != i - 1 implies behind(
        #[trigger] links[k],
    ) is None by {
        if k + 1 < i {
            assert(elements[k + 1].id != elements[i].id);
        } else {
            assert(elements[i].id != elements[k + 1].id);
        }
    }
    if i < links.len() {
        assert(ahead(links[i]) == Some(elements[i + 1].id));
        sequences::lemma_filter_map_unique(links, ahead, i);
    } else {
        sequences::lemma_filter_map_none(links, ahead);
    }
    if i > 0 {
        assert(behind(links[i - 1]) == Some(elements[i - 1].id));
        sequences::lemma_filter_map_unique(links, behind, i - 1);
    } else {
        sequences::lemma_filter_map_none(links, behind);
    }
    lemma_position(elements, i);
}

proof fn lemma_position(elements: Seq<ElementInfo>, i: int)
    requires
        0 <= i < elements.len(),
        gst_launch::element_ids_differ(elements),
    ensures
        gst_launch::position_of(elements, elements[i].id) == Some(i),
    decreases elements.len(),
{
    if i < elements.len() - 1 {
        let init = elements.drop_last();
        assert forall|a: int, b: int| 0 <= a < b < init.len() implies (#[trigger] init[a]).id != (
        #[trigger] init[b]).id by {
            assert(elements[a].id != elements[b].id);
        }
        assert(elements[i].id != elements[elements.len() - 1].id);
        lemma_position(init, i);
        assert(init[i] == elements[i]);
    }
}

/// The ids of the first `n` elements are written, and no others.
spec fn written_to(elements: Seq<ElementInfo>, visited: Set<Seq<char>>, n: int) -> bool {
    forall|k: int| 0 <= k < elements.len() ==> visited.contains((#[trigger] elements[k]).id) == (k < n)
}

proof fn lemma_follows_line(elements: Seq<ElementInfo>, i: int, walk: Walk)
    requires
        0 <= i < elements.len(),
        gst_launch::element_ids_differ(elements),
        forall|k: int| 0 <= k < elements.len() ==> #[trigger] lined(elements, k),
        walk.chains == seq![line_chain((i + 1) as nat)],
        walk.pending.len() == 0,
        written_to(elements, walk.visited, i + 1),
    ensures
        gst_launch::followed(elements, in_line(elements), i, walk) matches Some(after)
            && after.chains == seq![line_chain(elements.len())] && after.pending.len() == 0
            && written_to(elements, after.visited, elements.len() as int),
    decreases elements.len() - i,
{
    let links = in_line(elements);
    assert(lined(elements, i));
    let kept = gst_launch::with_branches(links, elements[i].id, walk);
    assert(gst_launch::leaving(links, elements[i].id).len() <= 1);
    if i < elements.len() - 1 {
        assert(lined(elements, i + 1));
        assert(!gst_launch::is_named(links, elements[i + 1].id));
        let next = gst_launch::stepped(elements, kept, Node::Element(i + 1, false));
        assert(line_chain((i + 1) as nat).push(Node::Element(i + 1, false)) =~= line_chain(
            (i + 2) as nat,
        ));
        assert(next.chains =~= seq![line_chain((i + 2) as nat)]);
        assert(written_to(elements, next.visited, i + 2)) by {
            assert forall|k: int| 0 <= k < elements.len() implies next.visited.contains(
                (#[trigger] elements[k]).id,
            ) == (k < i + 2) by {
                if k < i + 1 {
                    assert(walk.visited.contains(elements[k].id));
                } else if k > i + 1 {
                    assert(elements[i + 1].id != elements[k].id);
                }
            }
        }
        lemma_follows_line(elements, i + 1, next);
    }
}

proof fn lemma_sources_of_line(elements: Seq<ElementInfo>, n: int, whole: Walk)
    requires
        1 <= n <= elements.len(),
        forall|k: int| 0 <= k < elements.len() ==> #[trigger] lined(elements, k),
        gst_launch::after_start(
            elements,
            in_line(elements),
            0,
            Walk { visited: Set::empty(), chains: Seq::empty(), pending: Seq::empty() },
        ) == Some(whole),
    ensures
        gst_launch::after_sources(elements, in_line(elements), n) == Some(whole),
    decreases n,
{
    assert(lined(elements, n - 1));
    if n > 1 {
        lemma_sources_of_line(elements, n - 1, whole);
    } else {
        reveal_with_fuel(gst_launch::after_sources, 2);
    }
}

proof fn lemma_rest_of_line(elements: Seq<ElementInfo>, whole: Walk, n: int)
    requires
        0 <= n <= elements.len(),
        written_to(elements, whole.visited, elements.len() as int),
    ensures
        gst_launch::after_rest(elements, in_line(elements), whole, n) == Some(whole),
    decreases n,
{
    if n > 0 {
        lemma_rest_of_line(elements, whole, n - 1);
        assert(whole.visited.contains(elements[n - 1].id));
    }
}

proof fn lemma_line_text(elements: Seq<ElementInfo>, n: nat)
    requires
        n > 0,
    ensures
        gst_launch::chain_text(elements, line_chain(n)) == line_text(elements, n),
    decreases n,
{
    if n > 1 {
        lemma_line_text(elements, (n - 1) as nat);
        assert(line_chain(n).drop_last() =~= line_chain((n - 1) as nat));
    }
}

/// An element is written with its name where more than one connection leaves
/// or leads to it, so that the others can refer to it.
pub proof fn elements_at_branches_are_named(
    links: Seq<(Seq<char>, Seq<char>)>,
    id: Seq<char>,
    i: int,
    j: int,
)
    requires
        0 <= i < j < links.len(),
        (text::split(links[i].0, ':')[0] == id && text::split(links[j].0, ':')[0] == id) || (
        text::split(links[i].1, ':')[0] == id && text::split(links[j].1, ':')[0] == id),
    ensures
        gst_launch::is_named(links, id),
{
    let ahead = |l: (Seq<char>, Seq<char>)|
        if gst_launch::end_element(l.0) == id {
            Some(gst_launch::end_element(l.1))
        } else {
            None::<Seq<char>>
        };
    let behind = |l: (Seq<char>, Seq<char>)|
        if gst_launch::end_element(l.1) == id {
            Some(gst_launch::end_element(l.0))
        } else {
            None::<Seq<char>>
        };
    assert(links.take(links.len() as int) =~= links);
    if text::split(links[i].0, ':')[0] == id && text::split(links[j].0, ':')[0] == id {
        lemma_two_kept(links, ahead, i, j, links.len() as int);
    } else {
        lemma_two_kept(links, behind, i, j, links.len() as int);
    }
}

proof fn lemma_two_kept<A, B>(s: Seq<A>, f: spec_fn(A) -> Option<B>, i: int, j: int, n: int)
    requires
        0 <= i < j < s.len(),
        n <= s.len(),
        i < n,
        f(s[i]) is Some,
        f(s[j]) is Some,
    ensures
        s.take(n).filter_map(f).len() >= if j < n {
            2nat
        } else {
            1
        },
    decreases n,
{
    s.lemma_filter_map_take_succ(f, n - 1);
    if i < n - 1 {
        lemma_two_kept(s, f, i, j, n - 1);
    }
}

// ---------------------------------------------------------------------------
// A parsed pipeline
// ---------------------------------------------------------------------------

/// A name that is the type with something behind it gives way to the type and
/// the position; any other name is kept.
pub proof fn given_names_are_kept(
    name: Seq<char>,
    kind: Seq<char>,
    tail: Seq<char>,
    position: int,
)
    ensures
        tail.len() > 0 ==> gst_launch::readable_id(kind + tail, kind, position) == kind + "_"@
            + text::decimal(position as nat),
        (forall|rest: Seq<char>| name != #[trigger] (kind + rest)) ==> gst_launch::readable_id(
            name,
            kind,
            position,
        ) == name,
        gst_launch::readable_id(kind, kind, position) == kind,
{
    assert((kind + tail).subrange(0, kind.len() as int) =~= kind);
    if forall|rest: Seq<char>| name != #[trigger] (kind + rest) {
        if text::has_prefix(name, kind) {
            assert(name =~= kind + name.skip(kind.len() as int));
        }
    }
}

/// The id of a parsed element.
pub open spec fn id_of(elements: Seq<ParsedInfo>, i: int) -> Seq<char> {
    gst_launch::readable_id(elements[i].name, elements[i].factory->0, i)
}

pub open spec fn names_differ(elements: Seq<ParsedInfo>) -> bool {
    forall|i: int, j: int|
        0 <= i < j < elements.len() ==> (#[trigger] elements[i]).name != (
        #[trigger] elements[j]).name
}

proof fn lemma_known(elements: Seq<ParsedInfo>, n: int, i: int)
    requires
        names_differ(elements),
        0 <= i < n <= elements.len(),
    ensures
        text::lookup(gst_launch::known_ids(elements, n), elements[i].name) == (
        if elements[i].factory is Some {
            Some(id_of(elements, i))
        } else {
            None
        }),
    decreases n,
{
    let e = elements[n - 1];
    let before = gst_launch::known_ids(elements, n - 1);
    let all = gst_launch::known_ids(elements, n);
    if e.factory is Some {
        assert(all.skip(1) =~= before);
        assert(all[0] == (e.name, id_of(elements, n - 1)));
    }
    if i < n - 1 {
        assert(elements[i].name != elements[n - 1].name);
        lemma_known(elements, n - 1, i);
    } else if e.factory is None {
        lemma_unknown(elements, n - 1, e.name);
    }
}

proof fn lemma_unknown(elements: Seq<ParsedInfo>, n: int, name: Seq<char>)
    requires
        0 <= n <= elements.len(),
        forall|k: int| 0 <= k < n ==> (#[trigger] elements[k]).name != name,
    ensures
        text::lookup(gst_launch::known_ids(elements, n), name) is None,
    decreases n,
{
    if n > 0 {
        let before = gst_launch::known_ids(elements, n - 1);
        let all = gst_launch::known_ids(elements, n);
        assert(elements[n - 1].name != name);
        lemma_unknown(elements, n - 1, name);
        if elements[n - 1].factory is Some {
            assert(all.skip(1) =~= before);
        }
    }
}

/// Two elements are connected.
pub open spec fn joins(edges: Seq<Edge>, from_id: Seq<char>, to_id: Seq<char>) -> bool {
    exists|m: int|
        0 <= m < edges.len() && (#[trigger] edges[m]).from_id == from_id && edges[m].to_id == to_id
}

proof fn lemma_pads_keep(
    ids: Seq<(Seq<char>, Seq<char>)>,
    e: ParsedInfo,
    from_id: Seq<char>,
    edges: Seq<Edge>,
    n: int,
)
    requires
        0 <= n,
    ensures
        ({
            let after = gst_launch::edges_of_pads(ids, e, from_id, edges, n);
            &&& after.len() >= edges.len()
            &&& forall|m: int| 0 <= m < edges.len() ==> #[trigger] after[m] == edges[m]
        }),
    decreases n,
{
    if n > 0 {
        lemma_pads_keep(ids, e, from_id, edges, n - 1);
    }
}

proof fn lemma_pad_joins(
    ids: Seq<(Seq<char>, Seq<char>)>,
    e: ParsedInfo,
    from_id: Seq<char>,
    edges: Seq<Edge>,
    n: int,
    k: int,
)
    requires
        0 <= k < n <= e.src_pads.len(),
        e.src_pads[k].1 matches Some(peer) && text::lookup(ids, peer.0) is Some,
    ensures
        joins(
            gst_launch::edges_of_pads(ids, e, from_id, edges, n),
            from_id,
            text::lookup(ids, e.src_pads[k].1->0 .0)->0,
        ),
    decreases n,
{
    let before = gst_launch::edges_of_pads(ids, e, from_id, edges, n - 1);
    let after = gst_launch::edges_of_pads(ids, e, from_id, edges, n);
    let to_id = text::lookup(ids, e.src_pads[k].1->0 .0)->0;
    if k < n - 1 {
        lemma_pad_joins(ids, e, from_id, edges, n - 1, k);
        let m = choose|m: int|
            0 <= m < before.len() && (#[trigger] before[m]).from_id == from_id && before[m].to_id
                == to_id;
        assert(after[m] == before[m]);
    } else if !joins(before, from_id, to_id) {
        assert(after.last().from_id == from_id && after.last().to_id == to_id);
        assert(after[after.len() - 1].from_id == from_id);
    }
}

proof fn lemma_elements_join(
    ids: Seq<(Seq<char>, Seq<char>)>,
    elements: Seq<ParsedInfo>,
    n: int,
    i: int,
    k: int,
)
    requires
        0 <= i < n <= elements.len(),
        0 <= k < elements[i].src_pads.len(),
        text::lookup(ids, elements[i].name) is Some,
        elements[i].src_pads[k].1 matches Some(peer) && text::lookup(ids, peer.0) is Some,
    ensures
        joins(
            gst_launch::edges_of_elements(ids, elements, n),
            text::lookup(ids, elements[i].name)->0,
            text::lookup(ids, elements[i].src_pads[k].1->0 .0)->0,
        ),
    decreases n,
{
    let before = gst_launch::edges_of_elements(ids, elements, n - 1);
    let after = gst_launch::edges_of_elements(ids, elements, n);
    let from_id = text::lookup(ids, elements[i].name)->0;
    let to_id = text::lookup(ids, elements[i].src_pads[k].1->0 .0)->0;
    let e = elements[n - 1];
    if i < n - 1 {
        lemma_elements_join(ids, elements, n - 1, i, k);
        let m = choose|m: int|
            0 <= m < before.len() && (#[trigger] before[m]).from_id == from_id && before[m].to_id
                == to_id;
        if let Some(other) = text::lookup(ids, e.name) {
            lemma_pads_keep(ids, e, other, before, e.src_pads.len() as int);
        }
        assert(after[m] == before[m]);
    } else {
        lemma_pad_joins(ids, e, from_id, before, e.src_pads.len() as int, k);
    }
}

/// Every connection between two elements of known type is part of the graph:
/// the ids of its ends are those of the two elements.
pub proof fn parsed_connections_are_kept(elements: Seq<ParsedInfo>, i: int, k: int, j: int)
    requires
        names_differ(elements),
        0 <= i < elements.len(),
        0 <= j < elements.len(),
        elements[i].factory is Some,
        elements[j].factory is Some,
        0 <= k < elements[i].src_pads.len(),
        elements[i].src_pads[k].1 matches Some(peer) && peer.0 == elements[j].name,
    ensures
        joins(
            gst_launch::edges_of_elements(
                gst_launch::known_ids(elements, elements.len() as int),
                elements,
                elements.len() as int,
            ),
            id_of(elements, i),
            id_of(elements, j),
        ),
{
    let n = elements.len() as int;
    let ids = gst_launch::known_ids(elements, n);
    lemma_known(elements, n, i);
    lemma_known(elements, n, j);
    lemma_elements_join(ids, elements, n, i, k);
}

/// A connection is that of a pad: its ends are written with the names of the
/// pads exactly where the elements have more than one of that direction.
pub open spec fn is_of_pad(
    edge: Edge,
    ids: Seq<(Seq<char>, Seq<char>)>,
    e: ParsedInfo,
    k: int,
) -> bool {
    &&& 0 <= k < e.src_pads.len()
    &&& text::lookup(ids, e.name) == Some(edge.from_id)
    &&& e.src_pads[k].1 matches Some(peer) && {
        &&& text::lookup(ids, peer.0) == Some(edge.to_id)
        &&& e.src_siblings > 1 ==> edge.from == edge.from_id + ":"@ + e.src_pads[k].0
        &&& e.src_siblings <= 1 ==> edge.from == edge.from_id
        &&& peer.2 > 1 ==> edge.to == edge.to_id + ":"@ + peer.1
        &&& peer.2 <= 1 ==> edge.to == edge.to_id
    }
}

/// A connection is that of a pad of an element.
pub open spec fn is_of_element(
    edge: Edge,
    ids: Seq<(Seq<char>, Seq<char>)>,
    e: ParsedInfo,
) -> bool {
    exists|k: int| is_of_pad(edge, ids, e, k)
}

/// A connection is that of a pad of one of the first `n` elements.
pub open spec fn is_of_pipeline(
    edge: Edge,
    ids: Seq<(Seq<char>, Seq<char>)>,
    elements: Seq<ParsedInfo>,
    n: int,
) -> bool {
    exists|i: int| 0 <= i < n && is_of_element(edge, ids, #[trigger] elements[i])
}

/// Every connection of the graph is one of the parsed pipeline, and its ends
/// are written with the names of their pads exactly where the elements have
/// more than one of that direction.
pub proof fn graph_has_no_other_connections(
    ids: Seq<(Seq<char>, Seq<char>)>,
    elements: Seq<ParsedInfo>,
    n: int,
)
    requires
        0 <= n <= elements.len(),
    ensures
        forall|m: int|
            0 <= m < gst_launch::edges_of_elements(ids, elements, n).len() ==> is_of_pipeline(
                #[trigger] gst_launch::edges_of_elements(ids, elements, n)[m],
                ids,
                elements,
                n,
            ),
    decreases n,
{
    if n > 0 {
        graph_has_no_other_connections(ids, elements, n - 1);
        let before = gst_launch::edges_of_elements(ids, elements, n - 1);
        let after = gst_launch::edges_of_elements(ids, elements, n);
        let e = elements[n - 1];
        if let Some(from_id) = text::lookup(ids, e.name) {
            lemma_pads_keep(ids, e, from_id, before, e.src_pads.len() as int);
            lemma_edges_are_of_pads(ids, e, from_id, before, e.src_pads.len() as int);
        }
        assert forall|m: int| 0 <= m < after.len() implies is_of_pipeline(
            #[trigger] after[m],
            ids,
            elements,
            n,
        ) by {
            if m < before.len() {
                assert(after[m] == before[m]);
                let i = choose|i: int|
                    0 <= i < n - 1 && is_of_element(before[m], ids, #[trigger] elements[i]);
                assert(is_of_element(after[m], ids, elements[i]));
            } else {
                assert(is_of_element(after[m], ids, elements[n - 1]));
            }
        }
    }
}

proof fn lemma_edges_are_of_pads(
    ids: Seq<(Seq<char>, Seq<char>)>,
    e: ParsedInfo,
    from_id: Seq<char>,
    edges: Seq<Edge>,
    n: int,
)
    requires
        0 <= n <= e.src_pads.len(),
        text::lookup(ids, e.name) == Some(from_id),
    ensures
        forall|m: int|
            edges.len() <= m < gst_launch::edges_of_pads(ids, e, from_id, edges, n).len()
                ==> is_of_element(
                #[trigger] gst_launch::edges_of_pads(ids, e, from_id, edges, n)[m],
                ids,
                e,
            ),
    decreases n,
{
    if n > 0 {
        lemma_edges_are_of_pads(ids, e, from_id, edges, n - 1);
        lemma_pads_keep(ids, e, from_id, edges, n - 1);
        let before = gst_launch::edges_of_pads(ids, e, from_id, edges, n - 1);
        let after = gst_launch::edges_of_pads(ids, e, from_id, edges, n);
        assert forall|m: int| edges.len() <= m < after.len() implies is_of_element(
            #[trigger] after[m],
            ids,
            e,
        ) by {
            if m < before.len() {
                assert(after[m] == before[m]);
            } else {
                assert(is_of_pad(after[m], ids, e, n - 1));
            }
        }
    }
}

/// A value that GStreamer holds keeps its number, truth or text as a property,
/// and what is unset or of another type is none.
pub proof fn values_keep_what_they_are(a: i32, b: i64, c: u32, d: u64, e: bool, s: String)
    ensures
        gst_launch::converted(GstValue::I32(a)) == Some(PropertyTree::Int(a as i64)),
        gst_launch::converted(GstValue::I64(b)) == Some(PropertyTree::Int(b)),
        gst_launch::converted(GstValue::U32(c)) == Some(PropertyTree::UInt(c as u64)),
        gst_launch::converted(GstValue::U64(d)) == Some(PropertyTree::UInt(d)),
        gst_launch::converted(GstValue::F32(d)) == Some(PropertyTree::Float(d)),
        gst_launch::converted(GstValue::F64(d)) == Some(PropertyTree::Float(d)),
        gst_launch::converted(GstValue::Bool(e)) == Some(PropertyTree::Bool(e)),
        gst_launch::converted(GstValue::Text(s)) == Some(PropertyTree::Text(s@)),
        gst_launch::converted(GstValue::NoText) is None,
        gst_launch::converted(GstValue::Other) is None,
{
}

/// Two values of one type that is no fraction are the same exactly where they
/// become the same property. The order of the two makes no difference, and
/// values that are no property differ from every value but an unset text.
pub proof fn same_values_are_the_same_property(x: GstValue, y: GstValue, close: bool)
    ensures
        gst_launch::same_value(x, y, close) == gst_launch::same_value(y, x, close),
        (x is I32 && y is I32) || (x is I64 && y is I64) || (x is U32 && y is U32) || (x is U64
            && y is U64) || (x is Bool && y is Bool) || (x is Text && y is Text)
            ==> gst_launch::same_value(x, y, close) == (gst_launch::converted(x)
            == gst_launch::converted(y)),
        x is F64 && y is F64 || x is F32 && y is F32 ==> gst_launch::same_value(x, y, close)
            == close,
        x is NoText && y is NoText ==> gst_launch::same_value(x, y, close),
        x is Other ==> !gst_launch::same_value(x, y, close),
        (x is I32 && !(y is I32)) || (x is I64 && !(y is I64)) || (x is U32 && !(y is U32)) || (x is U64
            && !(y is U64)) || (x is Bool && !(y is Bool)) || (x is Text && !(y is Text)) || (x is F32
            && !(y is F32)) || (x is F64 && !(y is F64)) ==> !gst_launch::same_value(x, y, close),
{
}

/// The two ends are those of a connection of the parsed pipeline between the
/// elements with the ids.
pub open spec fn is_written_connection(
    elements: Seq<ParsedInfo>,
    pair: (Seq<char>, Seq<char>),
    from_id: Seq<char>,
    to_id: Seq<char>,
) -> bool {
    is_of_pipeline(
        (Edge { from_id, to_id, from: pair.0, to: pair.1 }),
        gst_launch::known_ids(elements, elements.len() as int),
        elements,
        elements.len() as int,
    )
}

/// The links of the graph are the connections of the parsed pipeline: every link
/// runs from the end that a connection leaves to the end that it leads to, and
/// for any two connected elements of known type there is such a link.
pub proof fn links_run_from_source_to_sink(
    elements: Seq<ParsedInfo>,
    i: int,
    k: int,
    j: int,
    m: int,
)
    requires
        names_differ(elements),
    ensures
        0 <= m < gst_launch::parsed_links(elements).len() ==> exists|from_id: Seq<char>, to_id: Seq<char>|
            #[trigger] is_written_connection(
                elements,
                gst_launch::parsed_links(elements)[m],
                from_id,
                to_id,
            ),
        0 <= i < elements.len() && 0 <= j < elements.len() && elements[i].factory is Some
            && elements[j].factory is Some && 0 <= k < elements[i].src_pads.len() && (
        elements[i].src_pads[k].1 matches Some(peer) && peer.0 == elements[j].name)
            ==> exists|l: int|
            0 <= l < gst_launch::parsed_links(elements).len() && is_written_connection(
                elements,
                #[trigger] gst_launch::parsed_links(elements)[l],
                id_of(elements, i),
                id_of(elements, j),
            ),
{
    let n = elements.len() as int;
    let ids = gst_launch::known_ids(elements, n);
    let edges = gst_launch::edges_of_elements(ids, elements, n);
    let pairs = gst_launch::parsed_links(elements);
    graph_has_no_other_connections(ids, elements, n);
    assert(pairs.len() == edges.len());
    assert forall|l: int| 0 <= l < edges.len() implies is_written_connection(
        elements,
        #[trigger] pairs[l],
        edges[l].from_id,
        edges[l].to_id,
    ) by {
        let edge = edges[l];
        assert(edge == (Edge {
            from_id: edge.from_id,
            to_id: edge.to_id,
            from: pairs[l].0,
            to: pairs[l].1,
        }));
    }
    if 0 <= m < pairs.len() {
        assert(is_written_connection(elements, pairs[m], edges[m].from_id, edges[m].to_id));
    }
    if 0 <= i < n && 0 <= j < n && elements[i].factory is Some && elements[j].factory is Some && 0
        <= k < elements[i].src_pads.len() && (elements[i].src_pads[k].1 matches Some(peer)
        && peer.0 == elements[j].name) {
        parsed_connections_are_kept(elements, i, k, j);
        let l = choose|l: int|
            0 <= l < edges.len() && (#[trigger] edges[l]).from_id == id_of(elements, i)
                && edges[l].to_id == id_of(elements, j);
        assert(is_written_connection(elements, pairs[l], edges[l].from_id, edges[l].to_id));
    }
}

} // verus!
