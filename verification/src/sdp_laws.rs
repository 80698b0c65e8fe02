//! What stays and what changes in session descriptions: laws on the offers and
//! answers that the WHIP proxy rewrites.

use crate::sdp;
use crate::sdp::VideoSearch;
use crate::sequences;
use crate::text;
use vstd::prelude::*;

verus! {

// ---------------------------------------------------------------------------
// Offers
// ---------------------------------------------------------------------------

/// A line of the description maps the payload type to redundancy or
/// retransmission data.
pub open spec fn maps_to_redundancy(lines: Seq<Seq<char>>, t: Seq<char>) -> bool {
    exists|j: int| 0 <= j < lines.len() && #[trigger] is_redundant_map(lines[j], t)
}

/// The line maps the payload type to redundancy or retransmission data.
pub open spec fn is_redundant_map(line: Seq<char>, t: Seq<char>) -> bool {
    exists|encoding: Seq<char>|
        line == "a=rtpmap:"@ + t + " "@ + encoding && !t.contains(' ') && (text::has_prefix(
            #[trigger] text::lowercase(encoding),
            "red/"@,
        ) || text::has_prefix(text::lowercase(encoding), "rtx/"@) || text::has_prefix(
            text::lowercase(encoding),
            "ulpfec/"@,
        ))
}

/// The line is an attribute of the payload type.
pub open spec fn is_attribute_of(line: Seq<char>, attribute: Seq<char>, t: Seq<char>) -> bool {
    &&& !t.contains(' ')
    &&& line == attribute + t || exists|rest: Seq<char>| line == #[trigger] (attribute + t + " "@ + rest)
}

/// The line says how a payload type for redundancy or retransmission data is
/// encoded, what its parameters are or what feedback it gets.
pub open spec fn is_about_redundancy(lines: Seq<Seq<char>>, k: int) -> bool {
    exists|t: Seq<char>| #[trigger]
        maps_to_redundancy(lines, t) && (is_attribute_of(lines[k], "a=rtpmap:"@, t)
            || is_attribute_of(lines[k], "a=fmtp:"@, t) || is_attribute_of(
            lines[k],
            "a=rtcp-fb:"@,
            t,
        ))
}

/// The positions among the first `n` lines of those about anything else.
pub open spec fn other_lines(lines: Seq<Seq<char>>, n: nat) -> Seq<int>
    decreases n,
{
    if n == 0 {
        Seq::empty()
    } else if is_about_redundancy(lines, n - 1) {
        other_lines(lines, (n - 1) as nat)
    } else {
        other_lines(lines, (n - 1) as nat).push(n - 1)
    }
}

/// The line lists the payload types of audio or video.
pub open spec fn is_list(line: Seq<char>) -> bool {
    text::has_prefix(line, "m=audio "@) || text::has_prefix(line, "m=video "@)
}

proof fn lemma_index_at(s: Seq<char>, c: char, i: int, at: int)
    requires
        0 <= i <= at <= s.len(),
        forall|k: int| i <= k < at ==> #[trigger] s[k] != c,
        at < s.len() ==> s[at] == c,
    ensures
        text::index_from(s, c, i) == at,
    decreases at - i,
{
    if i < at {
        lemma_index_at(s, c, i + 1, at);
    }
}

proof fn lemma_before_index(s: Seq<char>, c: char, i: int)
    requires
        0 <= i <= s.len(),
    ensures
        i <= text::index_from(s, c, i) <= s.len(),
        text::index_from(s, c, i) < s.len() ==> s[text::index_from(s, c, i)] == c,
        forall|k: int| i <= k < text::index_from(s, c, i) ==> #[trigger] s[k] != c,
    decreases s.len() - i,
{
    if i < s.len() && s[i] != c {
        lemma_before_index(s, c, i + 1);
    }
}

proof fn lemma_first_word(t: Seq<char>, rest: Seq<char>)
    requires
        !t.contains(' '),
    ensures
        text::first_word(t) == t,
        text::first_word(t + " "@ + rest) == t,
        text::index_from(t + " "@ + rest, ' ', 0) == t.len(),
{
    reveal_strlit(" ");
    let s = t + " "@ + rest;
    assert forall|k: int| 0 <= k < t.len() implies t[k] != ' ' && s[k] != ' ' by {
        assert(t.contains(t[k]));
    }
    lemma_index_at(t, ' ', 0, t.len() as int);
    lemma_index_at(s, ' ', 0, t.len() as int);
    assert(t.take(t.len() as int) =~= t);
    assert(s.take(t.len() as int) =~= t);
}

proof fn lemma_prefixed(line: Seq<char>, p: Seq<char>)
    ensures
        text::has_prefix(line, p) ==> line == p + line.skip(p.len() as int),
        forall|rest: Seq<char>|
            line == #[trigger] (p + rest) ==> text::has_prefix(line, p) && line.skip(
                p.len() as int,
            ) == rest,
{
    if text::has_prefix(line, p) {
        assert(line =~= p + line.skip(p.len() as int));
    }
    assert forall|rest: Seq<char>| line == #[trigger] (p + rest) implies text::has_prefix(line, p)
        && line.skip(p.len() as int) == rest by {
        assert((p + rest).subrange(0, p.len() as int) =~= p);
        assert((p + rest).skip(p.len() as int) =~= rest);
    }
}

proof fn lemma_redundant_type(line: Seq<char>, t: Seq<char>)
    ensures
        sdp::redundant_type(line) == Some(t) <==> is_redundant_map(line, t),
{
    let p = "a=rtpmap:"@;
    reveal_strlit(" ");
    lemma_prefixed(line, p);
    if sdp::redundant_type(line) == Some(t) {
        let rest = line.skip(p.len() as int);
        let space = text::index_from(rest, ' ', 0);
        lemma_before_index(rest, ' ', 0);
        let encoding = rest.skip(space + 1);
        assert(!t.contains(' ')) by {
            if t.contains(' ') {
                let k = choose|k: int| 0 <= k < t.len() && t[k] == ' ';
                assert(rest[k] != ' ');
            }
        }
        assert(rest =~= t + " "@ + encoding);
        assert(line =~= p + t + " "@ + encoding);
        assert(sdp::is_redundancy(text::lowercase(encoding)));
    }
    if is_redundant_map(line, t) {
        let encoding = choose|encoding: Seq<char>|
            line == p + t + " "@ + encoding && !t.contains(' ') && (text::has_prefix(
                #[trigger] text::lowercase(encoding),
                "red/"@,
            ) || text::has_prefix(text::lowercase(encoding), "rtx/"@) || text::has_prefix(
                text::lowercase(encoding),
                "ulpfec/"@,
            ));
        let rest = t + " "@ + encoding;
        assert(line =~= p + rest);
        lemma_first_word(t, encoding);
        assert(rest.skip(t.len() as int + 1) =~= encoding);
        assert(rest.take(t.len() as int) =~= t);
    }
}

proof fn lemma_types(lines: Seq<Seq<char>>, t: Seq<char>)
    ensures
        sdp::redundant_types(lines).contains(t) <==> maps_to_redundancy(lines, t),
{
    let pick = |line: Seq<char>| sdp::redundant_type(line);
    if sdp::redundant_types(lines).contains(t) {
        lines.lemma_filter_map_contains(pick, t);
        let line = choose|line: Seq<char>| lines.contains(line) && pick(line) == Some(t);
        let j = choose|j: int| 0 <= j < lines.len() && lines[j] == line;
        lemma_redundant_type(lines[j], t);
        assert(is_redundant_map(lines[j], t));
    }
    if maps_to_redundancy(lines, t) {
        let j = choose|j: int| 0 <= j < lines.len() && #[trigger] is_redundant_map(lines[j], t);
        lemma_redundant_type(lines[j], t);
        sequences::lemma_filter_map_holds(lines, pick, j, lines.len() as int);
        assert(lines.take(lines.len() as int) =~= lines);
    }
}

proof fn lemma_describes(line: Seq<char>, attribute: Seq<char>, t: Seq<char>)
    ensures
        (text::has_prefix(line, attribute) && text::first_word(line.skip(attribute.len() as int))
            == t) <==> is_attribute_of(line, attribute, t),
{
    reveal_strlit(" ");
    lemma_prefixed(line, attribute);
    if text::has_prefix(line, attribute) && text::first_word(line.skip(attribute.len() as int))
        == t {
        let rest = line.skip(attribute.len() as int);
        let space = text::index_from(rest, ' ', 0);
        lemma_before_index(rest, ' ', 0);
        assert(!t.contains(' ')) by {
            if t.contains(' ') {
                let k = choose|k: int| 0 <= k < t.len() && t[k] == ' ';
                assert(rest[k] != ' ');
            }
        }
        if space < rest.len() {
            let tail = rest.skip(space + 1);
            assert(rest =~= t + " "@ + tail);
            assert(line =~= attribute + t + " "@ + tail);
        } else {
            assert(rest =~= t);
        }
    }
    if is_attribute_of(line, attribute, t) {
        if line == attribute + t {
            lemma_first_word(t, Seq::empty());
        } else {
            let rest = choose|rest: Seq<char>|
                line == #[trigger] (attribute + t + " "@ + rest);
            assert(line =~= attribute + (t + " "@ + rest));
            lemma_first_word(t, rest);
        }
    }
}

proof fn lemma_dropped(lines: Seq<Seq<char>>, k: int)
    requires
        0 <= k < lines.len(),
    ensures
        sdp::is_dropped(lines[k], sdp::redundant_types(lines)) <==> is_about_redundancy(lines, k),
{
    let types = sdp::redundant_types(lines);
    let line = lines[k];
    assert forall|attribute: Seq<char>| #[trigger]
        sdp::describes_any(line, attribute, types) <==> exists|t: Seq<char>| #[trigger]
            maps_to_redundancy(lines, t) && is_attribute_of(line, attribute, t) by {
        let t = text::first_word(line.skip(attribute.len() as int));
        lemma_types(lines, t);
        lemma_describes(line, attribute, t);
        if exists|t: Seq<char>| #[trigger]
            maps_to_redundancy(lines, t) && is_attribute_of(line, attribute, t) {
            let u = choose|u: Seq<char>| #[trigger]
                maps_to_redundancy(lines, u) && is_attribute_of(line, attribute, u);
            lemma_describes(line, attribute, u);
        }
    }
    assert(sdp::is_dropped(line, types) <==> sdp::describes_any(line, "a=rtpmap:"@, types)
        || sdp::describes_any(line, "a=fmtp:"@, types) || sdp::describes_any(
        line,
        "a=rtcp-fb:"@,
        types,
    ));
}

proof fn lemma_clean(lines: Seq<Seq<char>>, n: nat)
    requires
        n <= lines.len(),
    ensures
        ({
            let types = sdp::redundant_types(lines);
            let out = sdp::clean_lines(lines.take(n as int), types);
            let kept = other_lines(lines, n);
            &&& out.len() == kept.len()
            &&& forall|m: int|
                0 <= m < kept.len() ==> 0 <= #[trigger] kept[m] < n && out[m] == sdp::kept_line(
                    lines[kept[m]],
                    types,
                )
        }),
    decreases n,
{
    let types = sdp::redundant_types(lines);
    let clean = |line: Seq<char>| sdp::clean_line(line, types);
    if n > 0 {
        lemma_clean(lines, (n - 1) as nat);
        lines.lemma_filter_map_take_succ(clean, n - 1);
        lemma_dropped(lines, n - 1);
        let before = sdp::clean_lines(lines.take(n - 1), types);
        let out = sdp::clean_lines(lines.take(n as int), types);
        let was = other_lines(lines, (n - 1) as nat);
        let kept = other_lines(lines, n);
        assert forall|m: int| 0 <= m < kept.len() implies 0 <= #[trigger] kept[m] < n && out[m]
            == sdp::kept_line(lines[kept[m]], types) by {
            if m < was.len() {
                assert(kept[m] == was[m]);
                assert(out[m] == before[m]);
            }
        }
    } else {
        assert(lines.take(0) =~= Seq::<Seq<char>>::empty());
        assert(sdp::clean_lines(lines.take(0), types) =~= Seq::<Seq<char>>::empty());
    }
}

/// Every line of an offer that is no attribute of a payload type for
/// redundancy or retransmission data is still there after stripping, in order,
/// and unchanged unless it lists payload types; the others are gone. An offer
/// without such payload types is not touched.
pub proof fn stripping_takes_redundancy_alone(offer: Seq<char>)
    ensures
        ({
            let lines = text::lines(offer);
            let kept = other_lines(lines, lines.len());
            if forall|t: Seq<char>| !#[trigger] maps_to_redundancy(lines, t) {
                sdp::stripped_offer(offer) == offer
            } else {
                exists|out: Seq<Seq<char>>|
                    sdp::stripped_offer(offer) == #[trigger] text::join(out, "\r\n"@) && out.len()
                        == kept.len() && forall|m: int|
                        0 <= m < kept.len() ==> if is_list(lines[kept[m]]) {
                            #[trigger] out[m] == sdp::kept_line(
                                lines[kept[m]],
                                sdp::redundant_types(lines),
                            )
                        } else {
                            out[m] == lines[kept[m]]
                        }
            }
        }),
{
    let lines = text::lines(offer);
    let types = sdp::redundant_types(lines);
    lemma_clean(lines, lines.len());
    assert(lines.take(lines.len() as int) =~= lines);
    if types.len() > 0 {
        lemma_types(lines, types[0]);
        assert(types.contains(types[0]));
        let out = sdp::clean_lines(lines, types);
        let kept = other_lines(lines, lines.len());
        assert forall|m: int| 0 <= m < kept.len() implies if is_list(lines[kept[m]]) {
            #[trigger] out[m] == sdp::kept_line(lines[kept[m]], types)
        } else {
            out[m] == lines[kept[m]]
        } by {
            assert(0 <= kept[m] < lines.len());
        }
        assert(sdp::stripped_offer(offer) == text::join(out, "\r\n"@));
    } else {
        assert forall|t: Seq<char>| !#[trigger] maps_to_redundancy(lines, t) by {
            lemma_types(lines, t);
        }
    }
}

/// A line that lists payload types keeps its port and protocol, and all
/// payload types but those for redundancy or retransmission data, in order.
pub proof fn lists_lose_redundancy_alone(
    lines: Seq<Seq<char>>,
    media: Seq<char>,
    port: Seq<char>,
    protocol: Seq<char>,
    list: Seq<char>,
)
    requires
        media == "m=audio "@ || media == "m=video "@,
        !port.contains(' '),
        !protocol.contains(' '),
    ensures
        sdp::kept_line(
            media + port + " "@ + protocol + " "@ + list,
            sdp::redundant_types(lines),
        ) == media + port + " "@ + protocol + " "@ + text::join(
            text::words(list).filter(|t: Seq<char>| !maps_to_redundancy(lines, t)),
            " "@,
        ),
{
    reveal_strlit(" ");
    reveal_strlit("m=audio ");
    reveal_strlit("m=video ");
    let line = media + port + " "@ + protocol + " "@ + list;
    let types = sdp::redundant_types(lines);
    assert forall|k: int| 0 <= k < port.len() implies port[k] != ' ' by {
        assert(port.contains(port[k]));
    }
    assert forall|k: int| 0 <= k < protocol.len() implies protocol[k] != ' ' by {
        assert(protocol.contains(protocol[k]));
    }
    let a = 7int;
    let b = a + 1 + port.len();
    let c = b + 1 + protocol.len();
    assert forall|k: int| 0 <= k < a implies #[trigger] line[k] != ' ' by {
        assert(line[k] == media[k]);
    }
    assert(line[a] == media[7]);
    assert forall|k: int| a + 1 <= k < b implies #[trigger] line[k] != ' ' by {
        assert(line[k] == port[k - a - 1]);
    }
    assert forall|k: int| b + 1 <= k < c implies #[trigger] line[k] != ' ' by {
        assert(line[k] == protocol[k - b - 1]);
    }
    lemma_index_at(line, ' ', 0, a);
    lemma_index_at(line, ' ', a + 1, b);
    lemma_index_at(line, ' ', b + 1, c);
    assert(sdp::third_space(line) == c);
    assert(line.subrange(0, media.len() as int) =~= media);
    assert(line.take(c) =~= media + port + " "@ + protocol);
    assert(line.skip(c + 1) =~= list);
    let keep = |t: Seq<char>| !types.contains(t);
    let other = |t: Seq<char>| !maps_to_redundancy(lines, t);
    assert forall|t: Seq<char>| #[trigger] keep(t) == other(t) by {
        lemma_types(lines, t);
    }
    assert(keep =~= other);
}

// ---------------------------------------------------------------------------
// Answers
// ---------------------------------------------------------------------------

proof fn lemma_absent(s: Seq<char>, part: Seq<char>, i: int)
    requires
        0 <= i,
        !text::contains_text(s, part),
    ensures
        text::find_from(s, part, i) is None,
    decreases s.len() + 1 - i,
{
    if i + part.len() <= s.len() {
        lemma_absent(s, part, i + 1);
    }
}

proof fn lemma_not_found_before(lines: Seq<Seq<char>>, word: Seq<char>)
    requires
        forall|k: int| 0 <= k < lines.len() ==> !text::contains_text(#[trigger] lines[k], word),
    ensures
        !(video_search(lines, word) is Found),
    decreases lines.len(),
{
    if lines.len() > 0 {
        let init = lines.drop_last();
        let line = lines.last();
        assert forall|k: int| 0 <= k < init.len() implies !text::contains_text(
            #[trigger] init[k],
            word,
        ) by {
            assert(init[k] == lines[k]);
        }
        lemma_not_found_before(init, word);
        assert(!text::contains_text(lines[lines.len() - 1], word));
        lemma_absent(line, word, 0);
        sdp::lemma_find_from_bounds(line, sdp::VIDEO@, 0);
        if let Some(video) = text::find_from(line, sdp::VIDEO@, 0) {
            lemma_absent(line, word, video);
        }
    }
}

spec fn video_search(lines: Seq<Seq<char>>, word: Seq<char>) -> VideoSearch {
    sdp::video_search(lines, word)
}

/// Line `k` is in a section that begins with a video line.
pub open spec fn stands_in_video(lines: Seq<Seq<char>>, k: int) -> bool {
    exists|m: int|
        0 <= m <= k && #[trigger] text::contains_text(lines[m], "m=video"@) && forall|n: int|
            m < n <= k ==> !text::has_prefix(#[trigger] lines[n], "m="@)
}

proof fn lemma_not_found_outside(lines: Seq<Seq<char>>, word: Seq<char>, n: int)
    requires
        0 <= n <= lines.len(),
        forall|k: int|
            0 <= k < n && text::contains_text(#[trigger] lines[k], word) ==> !stands_in_video(
                lines,
                k,
            ),
    ensures
        !(video_search(lines.take(n), word) is Found),
{
    let before = lines.take(n);
    if sdp::video_search(before, word) is Found {
        sdp::lemma_search_place(before, word);
        sdp::what_is_found_stands_in_video(before, word);
        let k = sdp::video_search(before, word)->Found_1;
        let m = choose|m: int| #[trigger]
            sdp::is_in_section(before, m, k) && text::contains_text(before[m], sdp::VIDEO@);
        assert(before[k] == lines[k]);
        assert(before[m] == lines[m]);
        assert(text::contains_text(lines[m], "m=video"@));
        assert forall|n: int| m < n <= k implies !text::has_prefix(#[trigger] lines[n], "m="@) by {
            assert(before[n] == lines[n]);
        }
        assert(stands_in_video(lines, k));
    }
}

/// Line `i` of a description is one of a video section that begins on line
/// `j` before it, and no line of a video section before holds the word.
pub open spec fn is_first_in_video(
    lines: Seq<Seq<char>>,
    word: Seq<char>,
    j: int,
    i: int,
) -> bool {
    &&& 0 <= j < i < lines.len()
    &&& text::has_prefix(lines[j], "m=video"@)
    &&& forall|k: int| j < k <= i ==> !text::has_prefix(#[trigger] lines[k], "m="@)
    &&& forall|k: int|
        0 <= k < i && text::contains_text(#[trigger] lines[k], word) ==> !stands_in_video(lines, k)
}

proof fn lemma_found_at(lines: Seq<Seq<char>>, word: Seq<char>, j: int, i: int)
    requires
        is_first_in_video(lines, word, j, i),
        text::contains_text(lines[i], word),
    ensures
        sdp::video_search(lines, word) matches VideoSearch::Found(begin, at_line, at) && at_line
            == i && begin < i && text::find_from(lines[i], word, 0) == Some(at),
{
    let head = lines.take(i + 1);
    let before = lines.take(i);
    assert(head.drop_last() =~= before);
    assert(head.last() == lines[i]);
    assert(sdp::is_in_section(lines, j, i - 1)) by {
        assert forall|k: int| j < k <= i - 1 implies !text::has_prefix(
            #[trigger] lines[k],
            sdp::SECTION@,
        ) by {}
    }
    sdp::lemma_search_reaches(lines, word, j, i - 1);
    lemma_not_found_outside(lines, word, i);
    assert(sdp::video_search(before, word) is Inside);
    sdp::lemma_search_place(before, word);
    let k = choose|k: int| text::occurs_at(lines[i], word, k);
    assert(text::occurs_at(lines[i], word, k));
    sdp::lemma_find_from_misses_nothing(lines[i], word, 0);
    assert(!text::has_prefix(lines[i], sdp::SECTION@));
    sdp::lemma_search_stays(lines, word, i + 1);
}

/// The carriage return that a line ends with, if it does.
pub open spec fn end_of(line: Seq<char>) -> Seq<char> {
    if line.len() > 0 && line.last() == '\r' {
        seq!['\r']
    } else {
        Seq::empty()
    }
}

/// Behind the first line of a video section with `transport-cc` feedback an
/// answer gets a line with `goog-remb` feedback for the same payload type,
/// ended as that line is; every other line stays. It gets none where it has
/// that line already.
pub proof fn feedback_is_added_behind_its_line(
    answer: Seq<char>,
    j: int,
    i: int,
    payload: Seq<char>,
    rest: Seq<char>,
)
    requires
        ({
            let lines = text::split(answer, '\n');
            &&& is_first_in_video(lines, " transport-cc"@, j, i)
            &&& i < lines.len() - 1
            &&& lines[i] == "a=rtcp-fb:"@ + payload + " transport-cc"@ + rest
            &&& !payload.contains(' ')
        }),
    ensures
        ({
            let lines = text::split(answer, '\n');
            let added = "a=rtcp-fb:"@ + payload + " goog-remb"@;
            &&& text::contains_text(answer, added) ==> sdp::with_remb(answer) == answer
            &&& !text::contains_text(answer, added) ==> sdp::with_remb(answer) == text::join(
                lines.insert(i + 1, added + end_of(lines[i])),
                seq!['\n'],
            )
        }),
{
    let lines = text::split(answer, '\n');
    let word = " transport-cc"@;
    let head = "a=rtcp-fb:"@;
    reveal_strlit(" transport-cc");
    reveal_strlit("a=rtcp-fb:");
    reveal_strlit(" ");
    let line = lines[i];
    let at = (head.len() + payload.len()) as int;
    assert(line.subrange(at, at + word.len()) =~= word);
    assert(text::occurs_at(line, word, at));
    lemma_found_at(lines, word, j, i);
    assert(line.take(at) =~= head + payload);
    lemma_first_space(line, word, at, 0, payload);
    let cut = line.take(at + word.len());
    assert(cut.subrange(0, head.len() as int) =~= head);
    assert(cut.skip(head.len() as int) =~= payload + word);
    assert(word =~= " "@ + "transport-cc"@) by {
        reveal_strlit("transport-cc");
    }
    assert(payload + word =~= payload + " "@ + "transport-cc"@);
    lemma_first_word(payload, "transport-cc"@);
    let added = head + payload + " goog-remb"@;
    assert(sdp::with_return_of(line, added) =~= added + end_of(line));
}

proof fn lemma_first_space(line: Seq<char>, word: Seq<char>, at: int, i: int, payload: Seq<char>)
    requires
        0 <= i <= at,
        word == " transport-cc"@,
        text::occurs_at(line, word, at),
        at == "a=rtcp-fb:"@.len() + payload.len(),
        line.take(at) == "a=rtcp-fb:"@ + payload,
        !payload.contains(' '),
    ensures
        text::find_from(line, word, i) == Some(at),
    decreases at - i,
{
    reveal_strlit(" transport-cc");
    reveal_strlit("a=rtcp-fb:");
    if i < at {
        if text::occurs_at(line, word, i) {
            assert(line.subrange(i, i + word.len())[0] == ' ');
            assert(line.take(at)[i] == ' ');
            if i >= 10 {
                assert(payload[i - 10] == ' ');
            }
        }
        lemma_first_space(line, word, at, i + 1, payload);
    }
}

/// Feedback is added for video alone, and only behind a line that is itself
/// about feedback and is not the last; where there is no such line the answer
/// stays as it is. All lines that it had are still there.
pub proof fn feedback_is_added_to_feedback_alone(answer: Seq<char>)
    ensures
        ({
            let lines = text::split(answer, '\n');
            ||| sdp::with_remb(answer) == answer
            ||| exists|i: int, payload: Seq<char>|
                0 <= i < lines.len() - 1 && #[trigger] is_feedback_on(lines[i], payload)
                    && stands_in_video(lines, i) && sdp::with_remb(answer) == text::join(
                    lines.insert(
                        i + 1,
                        "a=rtcp-fb:"@ + payload + " goog-remb"@ + end_of(lines[i]),
                    ),
                    seq!['\n'],
                )
        }),
{
    let lines = text::split(answer, '\n');
    let word = " transport-cc"@;
    if sdp::remb_addition(answer) is Some {
        sdp::lemma_search_place(lines, word);
        sdp::what_is_found_stands_in_video(lines, word);
        let i = sdp::video_search(lines, word)->Found_1;
        let at = sdp::video_search(lines, word)->Found_2;
        let m = choose|m: int| #[trigger]
            sdp::is_in_section(lines, m, i) && text::contains_text(lines[m], sdp::VIDEO@);
        assert(text::contains_text(lines[m], "m=video"@));
        assert(stands_in_video(lines, i));
        let line = lines[i].take(at + word.len());
        let payload = text::first_word(line.skip("a=rtcp-fb:"@.len() as int));
        assert(text::occurs_at(lines[i], word, at));
        let head = "a=rtcp-fb:"@;
        reveal_strlit("a=rtcp-fb:");
        reveal_strlit(" transport-cc");
        reveal_strlit(" ");
        assert(lines[i].subrange(at, at + word.len())[0] == ' ');
        assert(lines[i][at] == ' ');
        assert(line.subrange(0, head.len() as int) =~= head);
        assert forall|k: int| 0 <= k < head.len() implies line[k] != ' ' by {
            assert(line[k] == line.subrange(0, head.len() as int)[k]);
            assert(line[k] == head[k]);
        }
        assert(line[at] == lines[i][at]);
        assert(at >= head.len());
        let rest = line.skip(head.len() as int);
        lemma_before_index(rest, ' ', 0);
        let space = text::index_from(rest, ' ', 0);
        assert(rest[at - head.len()] == ' ');
        assert(payload == rest.take(space));
        assert(!payload.contains(' ')) by {
            if payload.contains(' ') {
                let k = choose|k: int| 0 <= k < payload.len() && payload[k] == ' ';
                assert(rest[k] == ' ');
            }
        }
        let begin = head + payload + " "@;
        assert(lines[i].subrange(0, begin.len() as int) =~= begin) by {
            assert forall|k: int| 0 <= k < begin.len() implies lines[i][k] == begin[k] by {
                assert(lines[i][k] == line[k]);
                if k < head.len() {
                    assert(line[k] == line.subrange(0, head.len() as int)[k]);
                } else {
                    assert(line[k] == rest[k - head.len()]);
                }
            }
        }
        assert(is_feedback_on(lines[i], payload));
        let added = "a=rtcp-fb:"@ + payload + " goog-remb"@;
        assert(sdp::with_return_of(lines[i], added) =~= added + end_of(lines[i]));
    }
}

/// The line is `transport-cc` feedback on the payload type.
pub open spec fn is_feedback_on(line: Seq<char>, payload: Seq<char>) -> bool {
    &&& text::has_prefix(line, "a=rtcp-fb:"@ + payload + " "@)
    &&& !payload.contains(' ')
    &&& text::contains_text(line, " transport-cc"@)
}

/// What stands outside of the video sections has no say: where their lines hold
/// no `transport-cc` feedback none is added, and where they hold no codec
/// parameters the hints stay where they are.
pub proof fn other_sections_have_no_say(answer: Seq<char>)
    ensures
        ({
            let lines = text::split(answer, '\n');
            &&& (forall|k: int|
                0 <= k < lines.len() && text::contains_text(#[trigger] lines[k], " transport-cc"@)
                    ==> !stands_in_video(lines, k)) ==> sdp::with_remb(answer) == answer
            &&& (forall|k: int|
                0 <= k < lines.len() && text::contains_text(#[trigger] lines[k], "a=fmtp:"@)
                    ==> !stands_in_video(lines, k)) ==> sdp::with_hints(answer) == answer
        }),
{
    let lines = text::split(answer, '\n');
    let n = lines.len() as int;
    assert(lines.take(n) =~= lines);
    if forall|k: int|
        0 <= k < lines.len() && text::contains_text(#[trigger] lines[k], " transport-cc"@)
            ==> !stands_in_video(lines, k) {
        lemma_not_found_outside(lines, " transport-cc"@, n);
    }
    if forall|k: int|
        0 <= k < lines.len() && text::contains_text(#[trigger] lines[k], "a=fmtp:"@)
            ==> !stands_in_video(lines, k) {
        lemma_not_found_outside(lines, "a=fmtp:"@, n);
    }
}

/// An answer without video, or without `transport-cc` feedback, gets none
/// added; one without video or codec parameters keeps its hints as they are.
pub proof fn answer_without_video_is_kept(answer: Seq<char>)
    ensures
        ({
            let lines = text::split(answer, '\n');
            let no_video = forall|k: int|
                0 <= k < lines.len() ==> !text::contains_text(#[trigger] lines[k], "m=video"@);
            &&& no_video ==> sdp::with_remb(answer) == answer && sdp::with_hints(answer) == answer
            &&& (forall|k: int|
                0 <= k < lines.len() ==> !text::contains_text(
                    #[trigger] lines[k],
                    " transport-cc"@,
                )) ==> sdp::with_remb(answer) == answer
            &&& (forall|k: int|
                0 <= k < lines.len() ==> !text::contains_text(#[trigger] lines[k], "a=fmtp:"@))
                ==> sdp::with_hints(answer) == answer
        }),
{
    let lines = text::split(answer, '\n');
    if forall|k: int|
        0 <= k < lines.len() ==> !text::contains_text(#[trigger] lines[k], "m=video"@) {
        lemma_no_video(lines, " transport-cc"@);
        lemma_no_video(lines, "a=fmtp:"@);
    }
    if forall|k: int|
        0 <= k < lines.len() ==> !text::contains_text(#[trigger] lines[k], " transport-cc"@) {
        lemma_not_found_before(lines, " transport-cc"@);
    }
    if forall|k: int|
        0 <= k < lines.len() ==> !text::contains_text(#[trigger] lines[k], "a=fmtp:"@) {
        lemma_not_found_before(lines, "a=fmtp:"@);
    }
}

proof fn lemma_no_video(lines: Seq<Seq<char>>, word: Seq<char>)
    requires
        forall|k: int|
            0 <= k < lines.len() ==> !text::contains_text(#[trigger] lines[k], "m=video"@),
    ensures
        sdp::video_search(lines, word) is Before,
    decreases lines.len(),
{
    if lines.len() > 0 {
        let init = lines.drop_last();
        assert forall|k: int| 0 <= k < init.len() implies !text::contains_text(
            #[trigger] init[k],
            "m=video"@,
        ) by {
            assert(init[k] == lines[k]);
        }
        lemma_no_video(init, word);
        assert(!text::contains_text(lines[lines.len() - 1], "m=video"@));
        lemma_absent(lines.last(), sdp::VIDEO@, 0);
    }
}

/// The first codec parameters of a video section get the hints at their end,
/// before the carriage return, and the lines that hold nothing but a hint go;
/// where the parameters hold the hints already, the lines go all the same.
pub proof fn hints_go_to_the_video_parameters(
    answer: Seq<char>,
    j: int,
    i: int,
    parameters: Seq<char>,
)
    requires
        ({
            let lines = text::split(answer, '\n');
            &&& is_first_in_video(lines, "a=fmtp:"@, j, i)
            &&& lines[i] == "a=fmtp:"@ + parameters + end_of(lines[i])
        }),
    ensures
        ({
            let lines = text::split(answer, '\n');
            let hints = sdp::hint_parameters(answer);
            &&& text::contains_text(lines[i], "x-google-start-bitrate"@) ==> sdp::with_hints(answer)
                == sdp::without_standalone(answer)
            &&& !text::contains_text(lines[i], "x-google-start-bitrate"@) ==> sdp::with_hints(
                answer,
            ) == sdp::without_standalone(
                text::join(
                    lines.update(i, "a=fmtp:"@ + parameters + hints + end_of(lines[i])),
                    seq!['\n'],
                ),
            )
        }),
{
    let lines = text::split(answer, '\n');
    let word = "a=fmtp:"@;
    let line = lines[i];
    let hints = sdp::hint_parameters(answer);
    reveal_strlit("a=fmtp:");
    assert(line.subrange(0, word.len() as int) =~= word);
    assert(text::occurs_at(line, word, 0));
    lemma_found_at(lines, word, j, i);
    assert(line.skip(0) =~= line);
    if line.last() == '\r' {
        assert(line.drop_last() =~= word + parameters);
    }
    assert(sdp::extended_line(line, hints) =~= word + parameters + hints + end_of(line));
}

/// The lines that hold nothing but a bitrate hint are those that begin with
/// the name of one, after any white space.
pub proof fn hint_lines_are_known_by_their_start(line: Seq<char>)
    ensures
        sdp::is_standalone_hint(line) <==> (text::has_prefix(
            text::trimmed(line),
            "a=x-google-min-bitrate:"@,
        ) || text::has_prefix(text::trimmed(line), "a=x-google-start-bitrate:"@)
            || text::has_prefix(text::trimmed(line), "a=x-google-max-bitrate:"@)),
{
}

/// Removing the lines that hold nothing but a hint keeps every other line, in
/// order.
pub proof fn only_hint_lines_go(answer: Seq<char>)
    ensures
        ({
            let kept = text::split(answer, '\n').filter(
                |line: Seq<char>| !sdp::is_standalone_hint(line),
            );
            let left = text::split(sdp::without_standalone(answer), '\n');
            &&& left.len() >= kept.len()
            &&& left.len() <= kept.len() + 1
            &&& forall|k: int| 0 <= k < kept.len() ==> #[trigger] left[k] == kept[k]
            &&& left.len() > kept.len() ==> left.last().len() == 0
        }),
{
    let kept = sdp::lemma_lines_kept(answer);
}

/// The hints are those of the answer's own lines, each the last of its name,
/// and where it has none the usual bitrates.
pub proof fn hints_are_the_answers_own(answer: Seq<char>)
    ensures
        exists|least: Seq<char>, start: Seq<char>, most: Seq<char>|
            sdp::hint_parameters(answer) == #[trigger] hint_text(least, start, most) && is_hint(
                text::lines(answer),
                "a=x-google-min-bitrate:"@,
                "2000"@,
                least,
            ) && is_hint(text::lines(answer), "a=x-google-start-bitrate:"@, "2000"@, start)
                && is_hint(text::lines(answer), "a=x-google-max-bitrate:"@, "4000"@, most),
{
    let lines = text::lines(answer);
    let least = sdp::hint_or(lines, "a=x-google-min-bitrate:"@, "2000"@);
    let start = sdp::hint_or(lines, "a=x-google-start-bitrate:"@, "2000"@);
    let most = sdp::hint_or(lines, "a=x-google-max-bitrate:"@, "4000"@);
    lemma_is_hint(lines, "a=x-google-min-bitrate:"@, "2000"@);
    lemma_is_hint(lines, "a=x-google-start-bitrate:"@, "2000"@);
    lemma_is_hint(lines, "a=x-google-max-bitrate:"@, "4000"@);
    assert(sdp::hint_parameters(answer) == hint_text(least, start, most));
}

/// Three bitrates as codec parameters.
pub open spec fn hint_text(least: Seq<char>, start: Seq<char>, most: Seq<char>) -> Seq<char> {
    ";x-google-min-bitrate="@ + least + ";x-google-start-bitrate="@ + start
        + ";x-google-max-bitrate="@ + most
}

/// The value is that of the last line with the name, or the usual one where no
/// line has it.
pub open spec fn is_hint(
    lines: Seq<Seq<char>>,
    name: Seq<char>,
    usual: Seq<char>,
    value: Seq<char>,
) -> bool {
    ||| value == usual && forall|k: int|
        0 <= k < lines.len() ==> !text::has_prefix(text::trimmed(#[trigger] lines[k]), name)
    ||| exists|k: int|
        0 <= k < lines.len() && text::has_prefix(text::trimmed(#[trigger] lines[k]), name) && value
            == text::trimmed(text::trimmed(lines[k]).skip(name.len() as int)) && forall|m: int|
            k < m < lines.len() ==> !text::has_prefix(text::trimmed(#[trigger] lines[m]), name)
}

proof fn lemma_is_hint(lines: Seq<Seq<char>>, name: Seq<char>, usual: Seq<char>)
    ensures
        is_hint(lines, name, usual, sdp::hint_or(lines, name, usual)),
    decreases lines.len(),
{
    if lines.len() > 0 {
        let init = lines.drop_last();
        let last = lines.len() - 1;
        if text::has_prefix(text::trimmed(lines.last()), name) {
            assert(text::has_prefix(text::trimmed(lines[last]), name));
        } else {
            lemma_is_hint(init, name, usual);
            let value = sdp::hint_or(init, name, usual);
            if forall|k: int|
                0 <= k < init.len() ==> !text::has_prefix(
                    text::trimmed(#[trigger] init[k]),
                    name,
                ) {
                assert forall|k: int| 0 <= k < lines.len() implies !text::has_prefix(
                    text::trimmed(#[trigger] lines[k]),
                    name,
                ) by {
                    if k < last {
                        assert(init[k] == lines[k]);
                    }
                }
                lemma_no_hint(init, name);
            } else {
                let k = choose|k: int|
                    0 <= k < init.len() && text::has_prefix(
                        text::trimmed(#[trigger] init[k]),
                        name,
                    ) && value == text::trimmed(text::trimmed(init[k]).skip(name.len() as int))
                        && forall|m: int|
                        k < m < init.len() ==> !text::has_prefix(
                            text::trimmed(#[trigger] init[m]),
                            name,
                        );
                assert(lines[k] == init[k]);
                assert forall|m: int| k < m < lines.len() implies !text::has_prefix(
                    text::trimmed(#[trigger] lines[m]),
                    name,
                ) by {
                    if m < last {
                        assert(init[m] == lines[m]);
                    }
                }
            }
        }
    }
}

proof fn lemma_no_hint(lines: Seq<Seq<char>>, name: Seq<char>)
    requires
        forall|k: int|
            0 <= k < lines.len() ==> !text::has_prefix(text::trimmed(#[trigger] lines[k]), name),
    ensures
        sdp::last_hint(lines, name) is None,
    decreases lines.len(),
{
    if lines.len() > 0 {
        let init = lines.drop_last();
        assert forall|k: int| 0 <= k < init.len() implies !text::has_prefix(
            text::trimmed(#[trigger] init[k]),
            name,
        ) by {
            assert(init[k] == lines[k]);
        }
        lemma_no_hint(init, name);
        assert(!text::has_prefix(text::trimmed(lines[lines.len() - 1]), name));
    }
}

} // verus!
