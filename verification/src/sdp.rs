//! Session descriptions on their way through the WHIP proxy: what is taken out
//! of an offer, and what is added to an answer.

use crate::sequences;
use crate::text;
use vstd::prelude::*;

verus! {

// ---------------------------------------------------------------------------
// Redundancy codecs in an offer
// ---------------------------------------------------------------------------

pub const RTPMAP: &'static str = "a=rtpmap:";

pub const FMTP: &'static str = "a=fmtp:";

pub const RTCP_FB: &'static str = "a=rtcp-fb:";

/// An encoding name, in lower case, of redundancy or retransmission data.
pub open spec fn is_redundancy(encoding: Seq<char>) -> bool {
    ||| text::has_prefix(encoding, "red/"@)
    ||| text::has_prefix(encoding, "rtx/"@)
    ||| text::has_prefix(encoding, "ulpfec/"@)
}

/// The payload type that a line maps to redundancy or retransmission data.
pub open spec fn redundant_type(line: Seq<char>) -> Option<Seq<char>> {
    if text::has_prefix(line, RTPMAP@) {
        let rest = line.skip(RTPMAP@.len() as int);
        let space = text::index_from(rest, ' ', 0);
        if space < rest.len() && is_redundancy(text::lowercase(rest.skip(space + 1))) {
            Some(rest.take(space))
        } else {
            None
        }
    } else {
        None
    }
}

/// The payload types that a description maps to redundancy or retransmission
/// data.
pub open spec fn redundant_types(lines: Seq<Seq<char>>) -> Seq<Seq<char>> {
    lines.filter_map(|line: Seq<char>| redundant_type(line))
}

/// The line is an attribute of one of the payload types.
pub open spec fn describes_any(
    line: Seq<char>,
    attribute: Seq<char>,
    types: Seq<Seq<char>>,
) -> bool {
    text::has_prefix(line, attribute) && types.contains(
        text::first_word(line.skip(attribute.len() as int)),
    )
}

pub open spec fn is_dropped(line: Seq<char>, types: Seq<Seq<char>>) -> bool {
    ||| describes_any(line, RTPMAP@, types)
    ||| describes_any(line, FMTP@, types)
    ||| describes_any(line, RTCP_FB@, types)
}

/// The position of the third space, or the length where there are fewer.
pub open spec fn third_space(line: Seq<char>) -> int {
    let first = text::index_from(line, ' ', 0);
    let second = text::index_from(line, ' ', first + 1);
    text::index_from(line, ' ', second + 1)
}

/// A line that lists the payload types of an audio or video stream.
pub open spec fn lists_types(line: Seq<char>) -> bool {
    (text::has_prefix(line, "m=audio "@) || text::has_prefix(line, "m=video "@)) && third_space(
        line,
    ) < line.len()
}

/// A line as it is kept: the list of payload types without the given ones,
/// any other line as it is.
pub open spec fn kept_line(line: Seq<char>, types: Seq<Seq<char>>) -> Seq<char> {
    if lists_types(line) {
        let space = third_space(line);
        line.take(space) + " "@ + text::join(
            text::words(line.skip(space + 1)).filter(|t: Seq<char>| !types.contains(t)),
            " "@,
        )
    } else {
        line
    }
}

pub open spec fn clean_line(line: Seq<char>, types: Seq<Seq<char>>) -> Option<Seq<char>> {
    if is_dropped(line, types) {
        None
    } else {
        Some(kept_line(line, types))
    }
}

pub open spec fn clean_lines(
    lines: Seq<Seq<char>>,
    types: Seq<Seq<char>>,
) -> Seq<Seq<char>> {
    lines.filter_map(|line: Seq<char>| clean_line(line, types))
}

/// An offer without redundancy and retransmission payload types. Where there
/// are none it is not touched.
pub open spec fn stripped_offer(sdp: Seq<char>) -> Seq<char> {
    let lines = text::lines(sdp);
    let types = redundant_types(lines);
    if types.len() == 0 {
        sdp
    } else {
        text::join(clean_lines(lines, types), "\r\n"@)
    }
}

fn type_mapped_to_redundancy(line: &str) -> (r: Option<String>)
    ensures
        r matches Some(t) ==> redundant_type(line@) == Some(t@),
        r is None ==> redundant_type(line@) is None,
{
    match text::strip_prefix(line, RTPMAP) {
        None => None,
        Some(rest) => {
            let v = text::chars_of(rest.as_str());
            let space = text::find_char(&v, ' ', 0);
            if space == v.len() {
                return None;
            }
            let encoding = text::text_between(&v, space + 1, v.len());
            proof {
                assert(encoding@ =~= rest@.skip(space + 1));
            }
            let lower = text::to_lowercase(encoding.as_str());
            if text::starts_with(lower.as_str(), "red/") || text::starts_with(
                lower.as_str(),
                "rtx/",
            ) || text::starts_with(lower.as_str(), "ulpfec/") {
                let t = text::text_between(&v, 0, space);
                assert(t@ =~= rest@.take(space as int));
                Some(t)
            } else {
                None
            }
        },
    }
}

fn line_describes(line: &str, attribute: &str, types: &Vec<String>) -> (r: bool)
    ensures
        r == describes_any(line@, attribute@, text::texts(types@)),
{
    match text::strip_prefix(line, attribute) {
        None => false,
        Some(rest) => {
            let v = text::chars_of(rest.as_str());
            let space = text::find_char(&v, ' ', 0);
            let word = text::text_between(&v, 0, space);
            assert(word@ =~= text::first_word(rest@));
            text::is_among(types, word.as_str())
        },
    }
}

/// The payload types of the list that are not among the given ones.
fn other_types(list: &Vec<String>, types: &Vec<String>) -> (r: Vec<String>)
    ensures
        text::texts(r@) == text::texts(list@).filter(
            |t: Seq<char>| !text::texts(types@).contains(t),
        ),
{
    let ghost all = text::texts(list@);
    let ghost keep = |t: Seq<char>| !text::texts(types@).contains(t);
    let mut out: Vec<String> = Vec::new();
    let mut i: usize = 0;
    proof {
        reveal(Seq::filter);
        assert(all.take(0) =~= Seq::<Seq<char>>::empty());
        assert(text::texts(out@) =~= all.take(0).filter(keep));
    }
    while i < list.len()
        invariant
            i <= list.len(),
            all == text::texts(list@),
            keep == (|t: Seq<char>| !text::texts(types@).contains(t)),
            text::texts(out@) == all.take(i as int).filter(keep),
        decreases list.len() - i,
    {
        proof {
            sequences::lemma_filter_take(all, keep, i as int);
            assert(all[i as int] == list@[i as int]@);
        }
        if !text::is_among(types, list[i].as_str()) {
            let ghost before = text::texts(out@);
            out.push(list[i].clone());
            assert(text::texts(out@) =~= before.push(all[i as int]));
        }
        i += 1;
    }
    proof {
        assert(all.take(all.len() as int) =~= all);
    }
    out
}

fn keep_line(line: &str, types: &Vec<String>) -> (r: String)
    ensures
        r@ == kept_line(line@, text::texts(types@)),
{
    if !(text::starts_with(line, "m=audio ") || text::starts_with(line, "m=video ")) {
        return line.to_owned();
    }
    let v = text::chars_of(line);
    let first = text::find_char(&v, ' ', 0);
    if first == v.len() {
        return line.to_owned();
    }
    let second = text::find_char(&v, ' ', first + 1);
    if second == v.len() {
        return line.to_owned();
    }
    let third = text::find_char(&v, ' ', second + 1);
    if third == v.len() {
        return line.to_owned();
    }
    let mut rest: Vec<char> = Vec::new();
    let mut i: usize = third + 1;
    while i < v.len()
        invariant
            third + 1 <= i <= v.len(),
            rest@ == v@.subrange(third + 1, i as int),
        decreases v.len() - i,
    {
        rest.push(v[i]);
        assert(v@.subrange(third + 1, i + 1) =~= v@.subrange(third + 1, i as int).push(
            v@[i as int],
        ));
        i += 1;
    }
    proof {
        assert(rest@ =~= line@.skip(third + 1));
    }
    let listed = text::words_of(&rest);
    let others = other_types(&listed, types);
    let joined = text::join_texts(&others, " ");
    let head = text::text_between(&v, 0, third);
    assert(head@ =~= line@.take(third as int));
    head.concat(" ").concat(joined.as_str())
}

/// Takes the redundancy and retransmission payload types out of an offer.
pub fn strip_redundancy_codecs(sdp: &str) -> (r: String)
    ensures
        r@ == stripped_offer(sdp@),
{
    let lines = text::lines_of(sdp);
    let ghost all = text::lines(sdp@);
    let ghost pick = |line: Seq<char>| redundant_type(line);
    let mut types: Vec<String> = Vec::new();
    let mut i: usize = 0;
    proof {
        assert(all.take(0) =~= Seq::<Seq<char>>::empty());
        assert(text::texts(types@) =~= all.take(0).filter_map(pick));
    }
    while i < lines.len()
        invariant
            i <= lines.len(),
            all == text::texts(lines@),
            pick == (|line: Seq<char>| redundant_type(line)),
            text::texts(types@) == all.take(i as int).filter_map(pick),
        decreases lines.len() - i,
    {
        proof {
            all.lemma_filter_map_take_succ(pick, i as int);
            assert(all[i as int] == lines@[i as int]@);
        }
        let ghost before = text::texts(types@);
        match type_mapped_to_redundancy(lines[i].as_str()) {
            Some(t) => {
                let ghost found = t@;
                types.push(t);
                assert(text::texts(types@) =~= before + seq![found]);
            },
            None => {
                assert(before =~= before + Seq::<Seq<char>>::empty());
            },
        }
        i += 1;
    }
    proof {
        assert(all.take(all.len() as int) =~= all);
    }
    if types.len() == 0 {
        return sdp.to_owned();
    }
    let ghost blocked = text::texts(types@);
    let ghost clean = |line: Seq<char>| clean_line(line, blocked);
    let mut out: Vec<String> = Vec::new();
    let mut k: usize = 0;
    proof {
        assert(all.take(0) =~= Seq::<Seq<char>>::empty());
        assert(text::texts(out@) =~= all.take(0).filter_map(clean));
    }
    while k < lines.len()
        invariant
            k <= lines.len(),
            all == text::texts(lines@),
            blocked == text::texts(types@),
            clean == (|line: Seq<char>| clean_line(line, blocked)),
            text::texts(out@) == all.take(k as int).filter_map(clean),
        decreases lines.len() - k,
    {
        let line = lines[k].as_str();
        proof {
            all.lemma_filter_map_take_succ(clean, k as int);
            assert(all[k as int] == line@);
        }
        let ghost before = text::texts(out@);
        if line_describes(line, RTPMAP, &types) || line_describes(line, FMTP, &types)
            || line_describes(line, RTCP_FB, &types) {
            assert(before =~= before + Seq::<Seq<char>>::empty());
        } else {
            let kept = keep_line(line, &types);
            let ghost shown = kept@;
            out.push(kept);
            assert(text::texts(out@) =~= before + seq![shown]);
        }
        k += 1;
    }
    proof {
        assert(all.take(all.len() as int) =~= all);
    }
    text::join_texts(&out, "\r\n")
}

// ---------------------------------------------------------------------------
// Bandwidth feedback in an answer
// ---------------------------------------------------------------------------

pub const VIDEO: &'static str = "m=video";

pub const TRANSPORT_CC: &'static str = " transport-cc";

pub const REMB: &'static str = " goog-remb";

/// How the line begins that starts a section.
pub const SECTION: &'static str = "m=";

/// How far the search for a word in the video sections has got.
pub enum VideoSearch {
    /// No video section has begun yet.
    Before,
    /// The first video section began on this line, and the lines are those of a
    /// video section.
    Inside(int),
    /// The first video section began on this line, and the lines are those of
    /// another section.
    Elsewhere(int),
    /// The first video section began on the first of these lines; the word
    /// stands on the second, at this place.
    Found(int, int, int),
}

/// Whether a line behind the start of the first video section belongs to a
/// video section, given whether the line before it does. A section runs to the
/// next line that starts one.
pub open spec fn is_of_video(line: Seq<char>, before: bool) -> bool {
    if text::has_prefix(line, SECTION@) {
        text::has_prefix(line, VIDEO@)
    } else {
        before
    }
}

/// The search on a line behind the start of the first video section, which is
/// the last of `n` lines.
pub open spec fn searched_line(
    line: Seq<char>,
    word: Seq<char>,
    begin: int,
    of_video: bool,
    n: nat,
) -> VideoSearch {
    if !of_video {
        VideoSearch::Elsewhere(begin)
    } else {
        match text::find_from(line, word, 0) {
            None => VideoSearch::Inside(begin),
            Some(at) => VideoSearch::Found(begin, n - 1, at),
        }
    }
}

/// The search for a word in the video sections of a description. The first
/// begins with `m=video`, wherever on a line that stands.
pub open spec fn video_search(lines: Seq<Seq<char>>, word: Seq<char>) -> VideoSearch
    decreases lines.len(),
{
    if lines.len() == 0 {
        VideoSearch::Before
    } else {
        let line = lines.last();
        match video_search(lines.drop_last(), word) {
            VideoSearch::Before => match text::find_from(line, VIDEO@, 0) {
                None => VideoSearch::Before,
                Some(video) => match text::find_from(line, word, video) {
                    None => VideoSearch::Inside(lines.len() - 1),
                    Some(at) => VideoSearch::Found(lines.len() - 1, lines.len() - 1, at),
                },
            },
            VideoSearch::Inside(begin) => searched_line(
                line,
                word,
                begin,
                is_of_video(line, true),
                lines.len(),
            ),
            VideoSearch::Elsewhere(begin) => searched_line(
                line,
                word,
                begin,
                is_of_video(line, false),
                lines.len(),
            ),
            found => found,
        }
    }
}

/// Where the search is, or was, is on the lines.
pub proof fn lemma_search_place(lines: Seq<Seq<char>>, word: Seq<char>)
    ensures
        match video_search(lines, word) {
            VideoSearch::Inside(begin) => 0 <= begin < lines.len(),
            VideoSearch::Elsewhere(begin) => 0 <= begin < lines.len(),
            VideoSearch::Found(begin, i, at) => 0 <= begin <= i < lines.len() && text::occurs_at(
                lines[i],
                word,
                at,
            ),
            VideoSearch::Before => true,
        },
    decreases lines.len(),
{
    if lines.len() > 0 {
        lemma_search_place(lines.drop_last(), word);
        let line = lines.last();
        lemma_find_from_bounds(line, VIDEO@, 0);
        lemma_find_from_bounds(line, word, 0);
        if let Some(video) = text::find_from(line, VIDEO@, 0) {
            lemma_find_from_bounds(line, word, video);
        }
    }
}

/// What is found in the first `n` lines is what is found in all.
pub proof fn lemma_search_stays(lines: Seq<Seq<char>>, word: Seq<char>, n: int)
    requires
        0 <= n <= lines.len(),
        video_search(lines.take(n), word) is Found,
    ensures
        video_search(lines, word) == video_search(lines.take(n), word),
    decreases lines.len(),
{
    if n < lines.len() {
        assert(lines.drop_last().take(n) =~= lines.take(n));
        lemma_search_stays(lines.drop_last(), word, n);
    } else {
        assert(lines.take(n) =~= lines);
    }
}

/// Finds a word in the video sections of a description: the line that the first
/// of them begins on, the line that the word stands on, and its place there.
fn find_in_video(lines: &Vec<String>, word: &str) -> (r: Option<(usize, usize, usize)>)
    ensures
        match r {
            Some((begin, i, at)) => begin <= i < lines.len() && at + word@.len()
                <= lines@[i as int]@.len() && video_search(text::texts(lines@), word@)
                == VideoSearch::Found(begin as int, i as int, at as int),
            None => !(video_search(text::texts(lines@), word@) is Found),
        },
{
    let ghost all = text::texts(lines@);
    let mut begun: Option<usize> = None;
    let mut inside: bool = false;
    let mut i: usize = 0;
    proof {
        assert(all.take(0) =~= Seq::<Seq<char>>::empty());
    }
    while i < lines.len()
        invariant
            i <= lines.len(),
            all == text::texts(lines@),
            begun matches Some(begin) ==> begin < i,
            video_search(all.take(i as int), word@) == (match begun {
                Some(begin) => if inside {
                    VideoSearch::Inside(begin as int)
                } else {
                    VideoSearch::Elsewhere(begin as int)
                },
                None => VideoSearch::Before,
            }),
        decreases lines.len() - i,
    {
        proof {
            assert(all.take(i + 1).drop_last() =~= all.take(i as int));
            assert(all.take(i + 1).last() == lines@[i as int]@);
        }
        let line = text::chars_of(lines[i].as_str());
        let from: Option<usize> = match begun {
            None => text::find_text_from(&line, VIDEO, 0),
            Some(_) => {
                if text::starts_with(lines[i].as_str(), SECTION) {
                    inside = text::starts_with(lines[i].as_str(), VIDEO);
                }
                if inside {
                    Some(0)
                } else {
                    None
                }
            },
        };
        match from {
            None => {},
            Some(from) => {
                let begin: usize = match begun {
                    Some(begin) => begin,
                    None => i,
                };
                match text::find_text_from(&line, word, from) {
                    Some(at) => {
                        proof {
                            lemma_search_stays(all, word@, i + 1);
                        }
                        return Some((begin, i, at));
                    },
                    None => {
                        begun = Some(begin);
                        inside = true;
                    },
                }
            },
        }
        i += 1;
    }
    proof {
        assert(all.take(all.len() as int) =~= all);
    }
    None
}

/// What is added to an answer, and behind which line: `goog-remb` feedback for
/// the payload type of the first line of a video section with `transport-cc`
/// feedback.
pub open spec fn remb_addition(s: Seq<char>) -> Option<(int, Seq<char>)> {
    let lines = text::split(s, '\n');
    match video_search(lines, TRANSPORT_CC@) {
        VideoSearch::Found(begin, i, at) => {
            let line = lines[i].take(at + TRANSPORT_CC@.len());
            let added = RTCP_FB@ + text::first_word(line.skip(RTCP_FB@.len() as int)) + REMB@;
            if i == begin || !text::has_prefix(line, RTCP_FB@) || text::contains_text(s, added) || i
                == lines.len() - 1 {
                None
            } else {
                Some((i, with_return_of(lines[i], added)))
            }
        },
        _ => None,
    }
}

/// A line with the carriage return that another one ends with, if it does.
pub open spec fn with_return_of(line: Seq<char>, added: Seq<char>) -> Seq<char> {
    if line.len() > 0 && line.last() == '\r' {
        added.push('\r')
    } else {
        added
    }
}

/// An answer with `goog-remb` feedback for its video.
pub open spec fn with_remb(s: Seq<char>) -> Seq<char> {
    match remb_addition(s) {
        None => s,
        Some((i, added)) => text::join(
            text::split(s, '\n').insert(i + 1, added),
            seq!['\n'],
        ),
    }
}

fn join_lines(lines: &Vec<String>) -> (r: String)
    ensures
        r@ == text::join(text::texts(lines@), seq!['\n']),
{
    proof {
        reveal_strlit("\n");
        assert("\n"@ =~= seq!['\n']);
    }
    text::join_texts(lines, "\n")
}

/// Adds `goog-remb` feedback to the video of an answer.
pub fn add_goog_remb(sdp: &str) -> (r: String)
    ensures
        r@ == with_remb(sdp@),
{
    let mut lines = text::split_text(sdp, '\n');
    let (begin, i, at) = match find_in_video(&lines, TRANSPORT_CC) {
        Some(found) => found,
        None => {
            return sdp.to_owned();
        },
    };
    proof {
        reveal_strlit(" transport-cc");
    }
    let ghost all = text::texts(lines@);
    let v = text::chars_of(lines[i].as_str());
    assert(all[i as int] == v@ && at + 13 <= v.len());
    let line = text::text_between(&v, 0, at + 13);
    assert(line@ =~= v@.take(at + 13));
    let rest = match text::strip_prefix(line.as_str(), RTCP_FB) {
        Some(rest) => rest,
        None => {
            return sdp.to_owned();
        },
    };
    let w = text::chars_of(rest.as_str());
    let space = text::find_char(&w, ' ', 0);
    let payload = text::text_between(&w, 0, space);
    assert(payload@ =~= text::first_word(rest@));
    let mut added = RTCP_FB.to_owned().concat(payload.as_str()).concat(REMB);
    if i == begin || text::contains(sdp, added.as_str()) || i == lines.len() - 1 {
        return sdp.to_owned();
    }
    if v[v.len() - 1] == '\r' {
        added.push('\r');
    }
    let ghost shown = added@;
    lines.insert(i + 1, added);
    proof {
        assert(text::texts(lines@) =~= all.insert(i + 1, shown));
    }
    join_lines(&lines)
}

// ---------------------------------------------------------------------------
// Bitrate hints in an answer
// ---------------------------------------------------------------------------

pub const MIN_HINT: &'static str = "a=x-google-min-bitrate:";

pub const START_HINT: &'static str = "a=x-google-start-bitrate:";

pub const MAX_HINT: &'static str = "a=x-google-max-bitrate:";

/// A line of its own that holds a bitrate hint.
pub open spec fn is_standalone_hint(line: Seq<char>) -> bool {
    let bare = text::trimmed(line);
    ||| text::has_prefix(bare, MIN_HINT@)
    ||| text::has_prefix(bare, START_HINT@)
    ||| text::has_prefix(bare, MAX_HINT@)
}

/// The value of the last line with a prefix.
pub open spec fn last_hint(lines: Seq<Seq<char>>, prefix: Seq<char>) -> Option<Seq<char>>
    decreases lines.len(),
{
    if lines.len() == 0 {
        None
    } else {
        let bare = text::trimmed(lines.last());
        if text::has_prefix(bare, prefix) {
            Some(text::trimmed(bare.skip(prefix.len() as int)))
        } else {
            last_hint(lines.drop_last(), prefix)
        }
    }
}

pub open spec fn hint_or(lines: Seq<Seq<char>>, prefix: Seq<char>, fallback: Seq<char>) -> Seq<
    char,
> {
    match last_hint(lines, prefix) {
        Some(value) => value,
        None => fallback,
    }
}

/// The hints as codec parameters.
pub open spec fn hint_parameters(s: Seq<char>) -> Seq<char> {
    let lines = text::lines(s);
    ";x-google-min-bitrate="@ + hint_or(lines, MIN_HINT@, "2000"@) + ";x-google-start-bitrate="@
        + hint_or(lines, START_HINT@, "2000"@) + ";x-google-max-bitrate="@ + hint_or(
        lines,
        MAX_HINT@,
        "4000"@,
    )
}

/// What is kept of the line at position `i` of a text's pieces, with the line
/// feed that ends it.
pub open spec fn kept_piece(pieces: Seq<Seq<char>>, i: int) -> Seq<char> {
    if is_standalone_hint(pieces[i]) {
        Seq::empty()
    } else if i < pieces.len() - 1 {
        pieces[i].push('\n')
    } else {
        pieces[i]
    }
}

pub open spec fn kept_pieces(pieces: Seq<Seq<char>>, n: int) -> Seq<char>
    decreases n,
{
    if n <= 0 {
        Seq::empty()
    } else {
        kept_pieces(pieces, n - 1) + kept_piece(pieces, n - 1)
    }
}

/// A description without lines that hold nothing but a bitrate hint.
pub open spec fn without_standalone(s: Seq<char>) -> Seq<char> {
    let pieces = text::split(s, '\n');
    kept_pieces(pieces, pieces.len() as int)
}

/// A line with something added at its end, before the carriage return where it
/// ends with one.
pub open spec fn extended_line(line: Seq<char>, added: Seq<char>) -> Seq<char> {
    if line.len() > 0 && line.last() == '\r' {
        (line.drop_last() + added).push('\r')
    } else {
        line + added
    }
}

/// What marks codec parameters that hold the hints already.
pub const HINT_MARK: &'static str = "x-google-start-bitrate";

/// An answer with the bitrate hints in the parameters of its first video
/// codec with parameters, and not on lines of their own. Without video, or
/// without parameters to add to in a video section, it is not touched.
pub open spec fn with_hints(s: Seq<char>) -> Seq<char> {
    let lines = text::split(s, '\n');
    match video_search(lines, FMTP@) {
        VideoSearch::Found(_, i, at) => if text::contains_text(lines[i].skip(at), HINT_MARK@) {
            without_standalone(s)
        } else {
            without_standalone(
                text::join(
                    lines.update(i, extended_line(lines[i], hint_parameters(s))),
                    seq!['\n'],
                ),
            )
        },
        _ => s,
    }
}

fn standalone_hint(line: &str) -> (r: bool)
    ensures
        r == is_standalone_hint(line@),
{
    let bare = text::trim(line);
    text::starts_with(bare.as_str(), MIN_HINT) || text::starts_with(bare.as_str(), START_HINT)
        || text::starts_with(bare.as_str(), MAX_HINT)
}

/// Takes lines that hold nothing but a bitrate hint out of a description.
pub fn remove_standalone_x_google(sdp: &str) -> (r: String)
    ensures
        r@ == without_standalone(sdp@),
{
    let pieces = text::split_text(sdp, '\n');
    let ghost parts = text::split(sdp@, '\n');
    let mut out: String = String::new();
    let mut i: usize = 0;
    while i < pieces.len()
        invariant
            i <= pieces.len(),
            text::texts(pieces@) == parts,
            out@ == kept_pieces(parts, i as int),
        decreases pieces.len() - i,
    {
        assert(parts[i as int] == pieces@[i as int]@);
        let ghost before = out@;
        if !standalone_hint(pieces[i].as_str()) {
            out.append(pieces[i].as_str());
            if i < pieces.len() - 1 {
                out.push('\n');
                assert(out@ =~= before + parts[i as int].push('\n'));
            }
        } else {
            assert(out@ =~= before + Seq::<char>::empty());
        }
        i += 1;
    }
    out
}

fn hint_value(lines: &Vec<String>, prefix: &str, fallback: &str) -> (r: String)
    ensures
        r@ == hint_or(text::texts(lines@), prefix@, fallback@),
{
    let ghost all = text::texts(lines@);
    let mut n: usize = lines.len();
    proof {
        assert(all.take(n as int) =~= all);
    }
    while n > 0
        invariant
            n <= lines.len(),
            all == text::texts(lines@),
            last_hint(all.take(n as int), prefix@) == last_hint(all, prefix@),
        decreases n,
    {
        proof {
            assert(all.take(n as int).last() == lines@[n - 1]@);
            assert(all.take(n as int).drop_last() =~= all.take(n - 1));
        }
        let bare = text::trim(lines[n - 1].as_str());
        match text::strip_prefix(bare.as_str(), prefix) {
            Some(value) => {
                return text::trim(value.as_str());
            },
            None => {},
        }
        n -= 1;
    }
    fallback.to_owned()
}

/// Moves the bitrate hints of an answer into its video codec's parameters.
pub fn fix_video_bitrate_hints(sdp: &str) -> (r: String)
    ensures
        r@ == with_hints(sdp@),
{
    let stated = text::lines_of(sdp);
    let min = hint_value(&stated, MIN_HINT, "2000");
    let start = hint_value(&stated, START_HINT, "2000");
    let max = hint_value(&stated, MAX_HINT, "4000");
    let hints = ";x-google-min-bitrate=".to_owned().concat(min.as_str()).concat(
        ";x-google-start-bitrate=",
    ).concat(start.as_str()).concat(";x-google-max-bitrate=").concat(max.as_str());
    let mut lines = text::split_text(sdp, '\n');
    let (_, i, at) = match find_in_video(&lines, FMTP) {
        Some(found) => found,
        None => {
            return sdp.to_owned();
        },
    };
    let ghost all = text::texts(lines@);
    let v = text::chars_of(lines[i].as_str());
    let parameters = text::text_between(&v, at, v.len());
    proof {
        assert(all[i as int] == v@);
        assert(parameters@ =~= v@.skip(at as int));
        reveal_strlit("a=fmtp:");
    }
    if text::contains(parameters.as_str(), HINT_MARK) {
        return remove_standalone_x_google(sdp);
    }
    let line = if v[v.len() - 1] == '\r' {
        let mut line = text::text_between(&v, 0, v.len() - 1).concat(hints.as_str());
        assert(v@.subrange(0, v@.len() - 1) =~= v@.drop_last());
        line.push('\r');
        line
    } else {
        lines[i].clone().concat(hints.as_str())
    };
    let ghost shown = line@;
    lines.set(i, line);
    proof {
        assert(shown == extended_line(v@, hints@));
        assert(text::texts(lines@) =~= all.update(i as int, shown));
    }
    let result = join_lines(&lines);
    remove_standalone_x_google(result.as_str())
}

// ---------------------------------------------------------------------------
// Laws
// ---------------------------------------------------------------------------

proof fn lemma_join_grow_last(parts: Seq<Seq<char>>, sep: Seq<char>, c: char)
    requires
        parts.len() >= 1,
    ensures
        text::join(parts.drop_last().push(parts.last().push(c)), sep) == text::join(
            parts,
            sep,
        ).push(c),
{
    let grown = parts.drop_last().push(parts.last().push(c));
    assert(grown.drop_last() =~= parts.drop_last());
    if parts.len() > 1 {
        assert(text::join(grown, sep) =~= text::join(parts, sep).push(c));
    }
}

/// Lines joined with carriage returns and line feeds are pieces between line
/// feeds, each but the last with a carriage return.
proof fn lemma_join_crlf(parts: Seq<Seq<char>>)
    requires
        parts.len() >= 1,
    ensures
        text::join(parts, "\r\n"@) == text::join(crlf_pieces(parts), seq!['\n']),
    decreases parts.len(),
{
    reveal_strlit("\r\n");
    let pieces = crlf_pieces(parts);
    if parts.len() == 1 {
        assert(pieces =~= parts);
    } else {
        let init = parts.drop_last();
        lemma_join_crlf(init);
        let before = crlf_pieces(init);
        lemma_join_grow_last(before, seq!['\n'], '\r');
        assert(pieces.drop_last() =~= before.drop_last().push(before.last().push('\r')));
        assert(text::join(parts, "\r\n"@) =~= text::join(init, "\r\n"@).push('\r') + seq!['\n']
            + parts.last());
    }
}

spec fn crlf_pieces(parts: Seq<Seq<char>>) -> Seq<Seq<char>> {
    Seq::new(
        parts.len(),
        |i: int|
            if i < parts.len() - 1 {
                parts[i].push('\r')
            } else {
                parts[i]
            },
    )
}

/// Lines without line feeds come back from their joined text, but for an
/// empty one at the end.
proof fn lemma_lines_of_join(parts: Seq<Seq<char>>)
    requires
        parts.len() >= 1,
        forall|i: int| 0 <= i < parts.len() ==> !(#[trigger] parts[i]).contains('\n'),
    ensures
        text::lines(text::join(parts, "\r\n"@)) == if parts.last().len() > 0 {
            parts
        } else {
            parts.drop_last()
        },
{
    let pieces = crlf_pieces(parts);
    lemma_join_crlf(parts);
    assert forall|i: int| 0 <= i < pieces.len() implies !(#[trigger] pieces[i]).contains('\n') by {
        assert(!parts[i].contains('\n'));
        if pieces[i].contains('\n') {
            let k = choose|k: int| 0 <= k < pieces[i].len() && pieces[i][k] == '\n';
            assert(k < parts[i].len());
            assert(parts[i][k] == '\n');
        }
    }
    text::split_undoes_join(pieces, '\n');
    let ended = pieces.drop_last().map_values(|line: Seq<char>| text::chomped(line));
    assert forall|i: int| 0 <= i < ended.len() implies ended[i] == parts[i] by {
        assert(pieces[i].drop_last() =~= parts[i]);
    }
    assert(ended =~= parts.drop_last());
    assert(parts.drop_last().push(parts.last()) =~= parts);
}

proof fn lemma_words_hold_no_white_space(s: Seq<char>)
    ensures
        forall|i: int, k: int|
            0 <= i < text::words(s).len() && 0 <= k < text::words(s)[i].len()
                ==> !text::is_white_space(#[trigger] text::words(s)[i][k]),
        s.len() > 0 && !text::is_white_space(s.last()) ==> text::words(s).len() > 0,
    decreases s.len(),
{
    if s.len() > 0 {
        lemma_words_hold_no_white_space(s.drop_last());
        let init = text::words(s.drop_last());
        if !text::is_white_space(s.last()) && s.len() > 1 && !text::is_white_space(
            s[s.len() - 2],
        ) {
            assert(s.drop_last().last() == s[s.len() - 2]);
            let grown = init.last().push(s.last());
            assert forall|i: int, k: int|
                0 <= i < text::words(s).len() && 0 <= k < text::words(s)[i].len() implies
                !text::is_white_space(#[trigger] text::words(s)[i][k]) by {
                if i == init.len() - 1 {
                    if k < grown.len() - 1 {
                        assert(init[i][k] == grown[k]);
                    }
                } else {
                    assert(text::words(s)[i] == init[i]);
                    assert(!text::is_white_space(init[i][k]));
                }
            }
        }
    }
}

/// A line kept of a description without line feeds in its lines holds none
/// either.
proof fn lemma_kept_line_is_one_line(line: Seq<char>, types: Seq<Seq<char>>)
    requires
        !line.contains('\n'),
    ensures
        !kept_line(line, types).contains('\n'),
{
    if lists_types(line) {
        let space = third_space(line);
        let rest = line.skip(space + 1);
        let keep = |t: Seq<char>| !types.contains(t);
        lemma_third_space_is_later(line);
        let kept = text::words(rest).filter(keep);
        lemma_words_hold_no_white_space(rest);
        assert forall|i: int| 0 <= i < kept.len() implies !(#[trigger] kept[i]).contains('\n') by {
            sequences::lemma_filter_element(text::words(rest), keep, i);
            let j = choose|j: int|
                0 <= j < text::words(rest).len() && #[trigger] text::words(rest)[j] == kept[i];
            if kept[i].contains('\n') {
                let k = choose|k: int| 0 <= k < kept[i].len() && kept[i][k] == '\n';
                assert(!text::is_white_space(text::words(rest)[j][k]));
            }
        }
        reveal_strlit(" ");
        text::lemma_join_holds_no(kept, " "@, '\n');
        let tail = text::join(kept, " "@);
        let all = line.take(space) + " "@ + tail;
        if all.contains('\n') {
            let k = choose|k: int| 0 <= k < all.len() && all[k] == '\n';
            if k < line.take(space).len() {
                assert(line.contains(line[k]));
            } else if k > line.take(space).len() {
                assert(tail.contains(tail[k - line.take(space).len() - 1]));
            }
        }
    }
}

/// No line of a text holds a line feed.
proof fn lemma_lines_hold_no_line_feed(s: Seq<char>)
    ensures
        forall|i: int|
            0 <= i < text::lines(s).len() ==> !(#[trigger] text::lines(s)[i]).contains('\n'),
{
    let pieces = text::split(s, '\n');
    text::lemma_split_pieces_hold_no_separator(s, '\n');
    text::lemma_split_not_empty(s, '\n');
    assert forall|i: int| 0 <= i < text::lines(s).len() implies !(
    #[trigger] text::lines(s)[i]).contains('\n') by {
        assert(!pieces[i].contains('\n'));
        let line = text::lines(s)[i];
        if line.contains('\n') {
            let k = choose|k: int| 0 <= k < line.len() && line[k] == '\n';
            assert(pieces[i][k] == '\n');
        }
    }
}

/// No kept line maps a payload type to redundancy or retransmission data.
proof fn lemma_clean_line_is_not_redundant(lines: Seq<Seq<char>>, i: int)
    requires
        0 <= i < lines.len(),
    ensures
        clean_line(lines[i], redundant_types(lines)) matches Some(kept) ==> redundant_type(
            kept,
        ) is None,
{
    let line = lines[i];
    let pick = |line: Seq<char>| redundant_type(line);
    let types = redundant_types(lines);
    reveal_strlit("a=rtpmap:");
    reveal_strlit("m=audio ");
    reveal_strlit("m=video ");
    if let Some(kept) = clean_line(line, types) {
        if lists_types(line) {
            let space = third_space(line);
            lemma_third_space_is_later(line);
            assert(line.subrange(0, "m=audio "@.len() as int)[0] == line[0]);
            assert(line.subrange(0, "m=video "@.len() as int)[0] == line[0]);
            assert(line[0] == 'm');
            assert(kept[0] == line[0]);
            if text::has_prefix(kept, RTPMAP@) {
                assert(kept.subrange(0, RTPMAP@.len() as int)[0] == kept[0]);
                assert(RTPMAP@[0] == 'a');
            }
        } else if let Some(t) = redundant_type(line) {
            sequences::lemma_filter_map_holds(lines, pick, i, lines.len() as int);
            assert(lines.take(lines.len() as int) =~= lines);
            assert(types.contains(t));
        }
    }
}

proof fn lemma_index_from_is_later(s: Seq<char>, c: char, i: int)
    requires
        0 <= i <= s.len(),
    ensures
        i <= text::index_from(s, c, i) <= s.len(),
    decreases s.len() - i,
{
    if i < s.len() && s[i] != c {
        lemma_index_from_is_later(s, c, i + 1);
    }
}

proof fn lemma_third_space_is_later(line: Seq<char>)
    requires
        third_space(line) < line.len(),
    ensures
        third_space(line) > 0,
{
    let first = text::index_from(line, ' ', 0);
    lemma_index_from_is_later(line, ' ', 0);
    if first < line.len() {
        lemma_index_from_is_later(line, ' ', first + 1);
        let second = text::index_from(line, ' ', first + 1);
        if second < line.len() {
            lemma_index_from_is_later(line, ' ', second + 1);
        }
    }
}

proof fn lemma_filter_map_of_none<A, B>(s: Seq<A>, f: spec_fn(A) -> Option<B>)
    requires
        forall|i: int| 0 <= i < s.len() ==> f(#[trigger] s[i]) is None,
    ensures
        s.filter_map(f).len() == 0,
{
    if s.filter_map(f).len() > 0 {
        let x = s.filter_map(f)[0];
        assert(s.filter_map(f).contains(x));
        s.lemma_filter_map_contains(f, x);
        let t = choose|t: A| s.contains(t) && f(t) == Some(x);
        let k = choose|k: int| 0 <= k < s.len() && s[k] == t;
        assert(f(s[k]) is None);
    }
}

/// A stripped offer maps no payload type to redundancy or retransmission data,
/// so stripping it again changes nothing.
pub proof fn stripped_offer_has_no_redundancy(sdp: Seq<char>)
    ensures
        redundant_types(text::lines(stripped_offer(sdp))).len() == 0,
        stripped_offer(stripped_offer(sdp)) == stripped_offer(sdp),
{
    let lines = text::lines(sdp);
    let types = redundant_types(lines);
    if types.len() > 0 {
        let clean = |line: Seq<char>| clean_line(line, types);
        let kept = clean_lines(lines, types);
        let out = text::join(kept, "\r\n"@);
        let pick = |line: Seq<char>| redundant_type(line);
        lemma_lines_hold_no_line_feed(sdp);
        assert forall|k: int| 0 <= k < kept.len() implies redundant_type(#[trigger] kept[k]) is None
            && !kept[k].contains('\n') by {
            assert(kept.contains(kept[k]));
            lines.lemma_filter_map_contains(clean, kept[k]);
            let line = choose|line: Seq<char>| lines.contains(line) && clean(line) == Some(kept[k]);
            let i = choose|i: int| 0 <= i < lines.len() && lines[i] == line;
            lemma_clean_line_is_not_redundant(lines, i);
            lemma_kept_line_is_one_line(lines[i], types);
        }
        if kept.len() > 0 {
            lemma_lines_of_join(kept);
            let again = text::lines(out);
            assert forall|k: int| 0 <= k < again.len() implies pick(#[trigger] again[k]) is None by {
                assert(again[k] == kept[k]);
            }
            lemma_filter_map_of_none(again, pick);
        } else {
            assert(out =~= Seq::<char>::empty());
            assert(text::lines(out) =~= Seq::<Seq<char>>::empty());
            lemma_filter_map_of_none(text::lines(out), pick);
        }
    }
}

/// What is found stands where it is found, and no earlier than asked for.
pub proof fn lemma_find_from_bounds(s: Seq<char>, part: Seq<char>, i: int)
    requires
        0 <= i,
    ensures
        text::find_from(s, part, i) matches Some(k) ==> i <= k && text::occurs_at(s, part, k),
    decreases s.len() + 1 - i,
{
    if i + part.len() <= s.len() && !text::occurs_at(s, part, i) {
        lemma_find_from_bounds(s, part, i + 1);
    }
}

/// A piece of a text stands in it.
proof fn lemma_piece_occurs(parts: Seq<Seq<char>>, sep: Seq<char>, i: int, part: Seq<char>)
    requires
        0 <= i < parts.len(),
        text::has_prefix(parts[i], part),
    ensures
        text::contains_text(text::join(parts, sep), part),
    decreases parts.len(),
{
    let all = text::join(parts, sep);
    assert(part =~= parts[i].subrange(0, part.len() as int));
    if parts.len() == 1 {
        assert(text::occurs_at(all, part, 0));
    } else if i == parts.len() - 1 {
        let from = all.len() - parts[i].len();
        assert(all.subrange(from, from + part.len()) =~= part);
        assert(text::occurs_at(all, part, from));
    } else {
        let init = parts.drop_last();
        lemma_piece_occurs(init, sep, i, part);
        let k = choose|k: int| text::occurs_at(text::join(init, sep), part, k);
        assert(all.subrange(k, k + part.len()) =~= text::join(init, sep).subrange(
            k,
            k + part.len(),
        ));
        assert(text::occurs_at(all, part, k));
    }
}

/// Line `i` is in the section that begins on line `j`.
pub open spec fn is_in_section(lines: Seq<Seq<char>>, j: int, i: int) -> bool {
    &&& 0 <= j <= i < lines.len()
    &&& forall|k: int| j < k <= i ==> !text::has_prefix(#[trigger] lines[k], SECTION@)
}

/// What the search finds, it finds in a video section.
pub proof fn what_is_found_stands_in_video(lines: Seq<Seq<char>>, word: Seq<char>)
    requires
        video_search(lines, word) is Found,
    ensures
        exists|j: int|
            #[trigger] is_in_section(lines, j, video_search(lines, word)->Found_1)
                && text::contains_text(lines[j], VIDEO@),
{
    lemma_search_took(lines, word);
    let i = video_search(lines, word)->Found_1;
    let j = lemma_search_is_in_video(lines.take(i + 1), word);
    assert forall|k: int| j < k <= i implies !text::has_prefix(#[trigger] lines[k], SECTION@) by {
        assert(lines.take(i + 1)[k] == lines[k]);
    }
    assert(is_in_section(lines, j, i));
}

/// The line on which the section of the last line begins, while the search is
/// in one of video.
proof fn lemma_search_is_in_video(lines: Seq<Seq<char>>, word: Seq<char>) -> (j: int)
    requires
        video_search(lines, word) is Inside || (video_search(
            lines,
            word,
        ) matches VideoSearch::Found(_, i, _) && i == lines.len() - 1),
    ensures
        is_in_section(lines, j, lines.len() - 1),
        text::contains_text(lines[j], VIDEO@),
    decreases lines.len(),
{
    let init = lines.drop_last();
    let line = lines.last();
    lemma_find_from_bounds(line, VIDEO@, 0);
    lemma_search_place(init, word);
    if video_search(init, word) is Inside && !text::has_prefix(line, SECTION@) {
        let j = lemma_search_is_in_video(init, word);
        assert forall|k: int| j < k <= lines.len() - 1 implies !text::has_prefix(
            #[trigger] lines[k],
            SECTION@,
        ) by {
            if k < init.len() {
                assert(lines[k] == init[k]);
            }
        }
        j
    } else {
        if text::has_prefix(line, VIDEO@) {
            assert(text::occurs_at(line, VIDEO@, 0));
        }
        lines.len() - 1
    }
}

/// A word in a video section, whichever of them, is found there unless one
/// before it is.
pub proof fn no_video_section_is_passed_over(
    lines: Seq<Seq<char>>,
    word: Seq<char>,
    j: int,
    i: int,
)
    requires
        is_in_section(lines, j, i),
        j < i,
        text::has_prefix(lines[j], VIDEO@),
        text::contains_text(lines[i], word),
    ensures
        video_search(lines, word) matches VideoSearch::Found(_, k, _) && k <= i,
{
    lemma_search_reaches(lines, word, j, i - 1);
    let before = lines.take(i);
    let head = lines.take(i + 1);
    assert(head.drop_last() =~= before);
    lemma_find_from_misses_nothing(lines[i], word, 0);
    lemma_search_place(before, word);
    lemma_search_stays(lines, word, i + 1);
    lemma_search_place(head, word);
}

/// In a video section the search is inside one, or over.
pub proof fn lemma_search_reaches(lines: Seq<Seq<char>>, word: Seq<char>, j: int, i: int)
    requires
        is_in_section(lines, j, i),
        text::has_prefix(lines[j], VIDEO@),
    ensures
        video_search(lines.take(i + 1), word) is Inside || video_search(
            lines.take(i + 1),
            word,
        ) is Found,
    decreases i - j,
{
    let head = lines.take(i + 1);
    assert(head.drop_last() =~= lines.take(i));
    assert(head.last() == lines[i]);
    if j < i {
        lemma_search_reaches(lines, word, j, i - 1);
        assert(!text::has_prefix(lines[i], SECTION@));
    } else {
        reveal_strlit("m=");
        reveal_strlit("m=video");
        let m = VIDEO@.len() as int;
        assert(lines[j].subrange(0, 2) =~= lines[j].subrange(0, m).subrange(0, 2));
        assert(VIDEO@.subrange(0, 2) =~= SECTION@);
        assert(text::occurs_at(lines[j], VIDEO@, 0));
        lemma_find_from_misses_nothing(lines[j], VIDEO@, 0);
    }
}

/// What a text holds is found in it.
pub proof fn lemma_find_from_misses_nothing(s: Seq<char>, part: Seq<char>, i: int)
    requires
        0 <= i,
        exists|k: int| i <= k && #[trigger] text::occurs_at(s, part, k),
    ensures
        text::find_from(s, part, i) is Some,
    decreases s.len() + 1 - i,
{
    if !text::occurs_at(s, part, i) {
        let k = choose|k: int| i <= k && #[trigger] text::occurs_at(s, part, k);
        assert(i + 1 <= k);
        lemma_find_from_misses_nothing(s, part, i + 1);
    }
}

/// Adding `goog-remb` feedback a second time changes nothing.
pub proof fn remb_is_added_once(s: Seq<char>)
    ensures
        with_remb(with_remb(s)) == with_remb(s),
{
    if let Some((i, line)) = remb_addition(s) {
        let lines = text::split(s, '\n');
        lemma_search_place(lines, TRANSPORT_CC@);
        text::lemma_split_pieces_hold_no_separator(s, '\n');
        let at = video_search(lines, TRANSPORT_CC@)->Found_2;
        let feedback = lines[i].take(at + TRANSPORT_CC@.len());
        let rest = feedback.skip(RTCP_FB@.len() as int);
        let payload = text::first_word(rest);
        let added = RTCP_FB@ + payload + REMB@;
        lemma_index_from_is_later(rest, ' ', 0);
        reveal_strlit("a=rtcp-fb:");
        reveal_strlit(" goog-remb");
        assert(!line.contains('\n')) by {
            if line.contains('\n') {
                let k = choose|k: int| 0 <= k < line.len() && line[k] == '\n';
                if RTCP_FB@.len() <= k < RTCP_FB@.len() + payload.len() {
                    assert(lines[i][k] == '\n');
                    assert(lines[i].contains('\n'));
                } else if k < RTCP_FB@.len() {
                    assert(RTCP_FB@[k] == '\n');
                } else if k < added.len() {
                    assert(REMB@[k - RTCP_FB@.len() - payload.len()] == '\n');
                }
            }
        }
        let more = lines.insert(i + 1, line);
        assert forall|k: int| 0 <= k < more.len() implies !(#[trigger] more[k]).contains('\n') by {
            if k <= i {
                assert(more[k] == lines[k]);
            } else if k > i + 1 {
                assert(more[k] == lines[k - 1]);
            }
        }
        text::split_undoes_join(more, '\n');
        lemma_search_took(lines, TRANSPORT_CC@);
        assert(more.take(i + 1) =~= lines.take(i + 1));
        lemma_search_stays(more, TRANSPORT_CC@, i + 1);
        assert(line.subrange(0, added.len() as int) =~= added);
        lemma_piece_occurs(more, seq!['\n'], i + 1, added);
        assert(remb_addition(with_remb(s)) is None);
    }
}

/// What is found on a line is found by the end of it.
proof fn lemma_search_took(lines: Seq<Seq<char>>, word: Seq<char>)
    requires
        video_search(lines, word) is Found,
    ensures
        ({
            let i = video_search(lines, word)->Found_1;
            &&& 0 <= i < lines.len()
            &&& video_search(lines.take(i + 1), word) == video_search(lines, word)
        }),
    decreases lines.len(),
{
    let i = video_search(lines, word)->Found_1;
    if lines.len() > 0 {
        if i == lines.len() - 1 {
            assert(lines.take(i + 1) =~= lines);
        } else {
            lemma_search_took(lines.drop_last(), word);
            assert(lines.drop_last().take(i + 1) =~= lines.take(i + 1));
        }
    }
}

/// Only lines of their own that hold a hint are removed: a description without
/// any is kept as it is.
pub proof fn description_without_standalone_hints_is_kept(s: Seq<char>)
    requires
        forall|i: int|
            0 <= i < text::split(s, '\n').len() ==> !is_standalone_hint(
                #[trigger] text::split(s, '\n')[i],
            ),
    ensures
        without_standalone(s) == s,
{
    let pieces = text::split(s, '\n');
    text::lemma_split_not_empty(s, '\n');
    lemma_kept_pieces_join(pieces, pieces.len() as int);
    text::join_undoes_split(s, '\n');
    assert(pieces.take(pieces.len() as int) =~= pieces);
    assert(pieces.filter(|p: Seq<char>| !is_standalone_hint(p)) =~= pieces) by {
        sequences::lemma_filter_keeps_all(pieces, |p: Seq<char>| !is_standalone_hint(p));
    }
}

/// What is kept of the first pieces: those that are no hints, each with the
/// line feed after it but for the last piece of all.
proof fn lemma_kept_pieces_join(pieces: Seq<Seq<char>>, n: int)
    requires
        1 <= n <= pieces.len(),
    ensures
        kept_pieces(pieces, n) == kept_text(
            pieces.take(n).filter(|p: Seq<char>| !is_standalone_hint(p)),
            n < pieces.len() || is_standalone_hint(pieces[n - 1]),
        ),
    decreases n,
{
    let keep = |p: Seq<char>| !is_standalone_hint(p);
    sequences::lemma_filter_take(pieces, keep, n - 1);
    let before = pieces.take(n - 1).filter(keep);
    let after = pieces.take(n).filter(keep);
    if n == 1 {
        reveal(Seq::filter);
        assert(pieces.take(0) =~= Seq::<Seq<char>>::empty());
        assert(before =~= Seq::<Seq<char>>::empty());
        assert(kept_pieces(pieces, 0) =~= Seq::<char>::empty());
        if keep(pieces[0]) {
            assert(after =~= seq![pieces[0]]);
            assert(text::join(after, seq!['\n']) == pieces[0]);
            if n < pieces.len() {
                assert(kept_pieces(pieces, 1) =~= pieces[0].push('\n'));
            } else {
                assert(kept_pieces(pieces, 1) =~= pieces[0]);
            }
        } else {
            assert(kept_pieces(pieces, 1) =~= Seq::<char>::empty());
        }
    } else {
        lemma_kept_pieces_join(pieces, n - 1);
        let piece = pieces[n - 1];
        if keep(piece) {
            if before.len() > 0 {
                text::lemma_join_push(before, seq!['\n'], piece);
                if n < pieces.len() {
                    assert(kept_pieces(pieces, n) =~= text::join(after, seq!['\n']).push('\n'));
                } else {
                    assert(kept_pieces(pieces, n) =~= text::join(after, seq!['\n']));
                }
            } else {
                assert(after =~= seq![piece]);
                assert(text::join(after, seq!['\n']) == piece);
                if n < pieces.len() {
                    assert(kept_pieces(pieces, n) =~= piece.push('\n'));
                } else {
                    assert(kept_pieces(pieces, n) =~= piece);
                }
            }
        } else {
            assert(kept_pieces(pieces, n) =~= kept_pieces(pieces, n - 1));
        }
    }
}

spec fn kept_text(kept: Seq<Seq<char>>, ended: bool) -> Seq<char> {
    if kept.len() > 0 && ended {
        text::join(kept, seq!['\n']).push('\n')
    } else {
        text::join(kept, seq!['\n'])
    }
}

/// The lines of what is kept: those that are no hints, and where the last line
/// was one, an empty line behind the line feed that is left.
pub proof fn lemma_lines_kept(s: Seq<char>) -> (kept: Seq<Seq<char>>)
    ensures
        kept == text::split(s, '\n').filter(|p: Seq<char>| !is_standalone_hint(p)),
        text::split(without_standalone(s), '\n') == if kept.len() == 0 {
            seq![Seq::<char>::empty()]
        } else if is_standalone_hint(text::split(s, '\n').last()) {
            kept.push(Seq::<char>::empty())
        } else {
            kept
        },
{
    let keep = |p: Seq<char>| !is_standalone_hint(p);
    let pieces = text::split(s, '\n');
    text::lemma_split_not_empty(s, '\n');
    text::lemma_split_pieces_hold_no_separator(s, '\n');
    lemma_kept_pieces_join(pieces, pieces.len() as int);
    assert(pieces.take(pieces.len() as int) =~= pieces);
    let kept = pieces.filter(keep);
    let out = without_standalone(s);
    assert forall|i: int| 0 <= i < kept.len() implies !(#[trigger] kept[i]).contains('\n') by {
        sequences::lemma_filter_element(pieces, keep, i);
    }
    if kept.len() == 0 {
        assert(out =~= Seq::<char>::empty());
        assert(text::split(out, '\n') =~= seq![Seq::<char>::empty()]);
    } else if is_standalone_hint(pieces.last()) {
        let with_end = kept.push(Seq::<char>::empty());
        text::lemma_join_push(kept, seq!['\n'], Seq::<char>::empty());
        assert(out =~= text::join(with_end, seq!['\n']));
        assert forall|i: int| 0 <= i < with_end.len() implies !(#[trigger] with_end[i]).contains(
            '\n',
        ) by {
            if i < kept.len() {
                assert(with_end[i] == kept[i]);
            }
        }
        text::split_undoes_join(with_end, '\n');
    } else {
        text::split_undoes_join(kept, '\n');
    }
    kept
}

/// No line of what is kept holds nothing but a bitrate hint.
pub proof fn no_standalone_hint_is_left(s: Seq<char>)
    ensures
        forall|i: int|
            0 <= i < text::split(without_standalone(s), '\n').len() ==> !is_standalone_hint(
                #[trigger] text::split(without_standalone(s), '\n')[i],
            ),
{
    let keep = |p: Seq<char>| !is_standalone_hint(p);
    let pieces = text::split(s, '\n');
    let kept = lemma_lines_kept(s);
    let left = text::split(without_standalone(s), '\n');
    lemma_empty_is_no_hint();
    assert forall|i: int| 0 <= i < left.len() implies !is_standalone_hint(#[trigger] left[i]) by {
        if i < kept.len() {
            assert(left[i] == kept[i]);
            sequences::lemma_filter_element(pieces, keep, i);
        }
    }
}

proof fn lemma_empty_is_no_hint()
    ensures
        !is_standalone_hint(Seq::<char>::empty()),
{
    reveal_strlit("a=x-google-min-bitrate:");
    reveal_strlit("a=x-google-start-bitrate:");
    reveal_strlit("a=x-google-max-bitrate:");
}

/// A text without the white space at its start is what follows some of it.
proof fn lemma_trim_start(s: Seq<char>) -> (w: int)
    ensures
        0 <= w <= s.len(),
        text::trim_start(s) == s.skip(w),
        forall|i: int| 0 <= i < w ==> text::is_white_space(#[trigger] s[i]),
        w < s.len() ==> !text::is_white_space(s[w]),
    decreases s.len(),
{
    if s.len() > 0 && text::is_white_space(s[0]) {
        let rest = s.skip(1);
        let w = lemma_trim_start(rest) + 1;
        assert(rest.skip(w - 1) =~= s.skip(w));
        assert forall|i: int| 0 <= i < w implies text::is_white_space(#[trigger] s[i]) by {
            if i > 0 {
                assert(rest[i - 1] == s[i]);
            }
        }
        w
    } else {
        assert(s.skip(0) =~= s);
        0
    }
}

/// A text without the white space at its end is what comes before some of it.
proof fn lemma_trim_end(s: Seq<char>) -> (n: int)
    ensures
        0 <= n <= s.len(),
        text::trim_end(s) == s.take(n),
        forall|i: int| n <= i < s.len() ==> text::is_white_space(#[trigger] s[i]),
    decreases s.len(),
{
    if s.len() > 0 && text::is_white_space(s.last()) {
        let rest = s.drop_last();
        let n = lemma_trim_end(rest);
        assert(rest.take(n) =~= s.take(n));
        assert forall|i: int| n <= i < s.len() implies text::is_white_space(#[trigger] s[i]) by {
            if i < rest.len() {
                assert(rest[i] == s[i]);
            }
        }
        n
    } else {
        assert(s.take(s.len() as int) =~= s);
        s.len() as int
    }
}

/// A line that begins a section is no hint.
proof fn lemma_section_is_no_hint(line: Seq<char>)
    requires
        text::has_prefix(line, SECTION@),
    ensures
        !is_standalone_hint(line),
{
    reveal_strlit("m=");
    reveal_strlit("a=x-google-min-bitrate:");
    reveal_strlit("a=x-google-start-bitrate:");
    reveal_strlit("a=x-google-max-bitrate:");
    assert(line.subrange(0, SECTION@.len() as int)[0] == line[0]);
    assert(line[0] == 'm');
    assert(text::trim_start(line) == line);
    let n = lemma_trim_end(line);
    let bare = text::trimmed(line);
    if bare.len() > 0 {
        assert(bare[0] == 'm');
        assert(text::has_prefix(bare, MIN_HINT@) ==> bare.subrange(0, MIN_HINT@.len() as int)[0]
            == 'm');
        assert(text::has_prefix(bare, START_HINT@) ==> bare.subrange(0, START_HINT@.len() as int)[0]
            == 'm');
        assert(text::has_prefix(bare, MAX_HINT@) ==> bare.subrange(0, MAX_HINT@.len() as int)[0]
            == 'm');
    }
}

/// A line that holds codec parameters and more behind them starts with no more
/// of a hint than it did before.
proof fn lemma_extension_keeps_start(
    line: Seq<char>,
    longer: Seq<char>,
    at: int,
    prefix: Seq<char>,
)
    requires
        text::occurs_at(line, FMTP@, at),
        longer.len() >= line.len(),
        longer.take(at + FMTP@.len()) == line.take(at + FMTP@.len()),
        !prefix.contains('f'),
        text::has_prefix(text::trimmed(longer), prefix),
    ensures
        text::has_prefix(text::trimmed(line), prefix),
{
    reveal_strlit("a=fmtp:");
    let m = prefix.len() as int;
    let shared = at + FMTP@.len();
    assert forall|i: int| 0 <= i < FMTP@.len() implies line[at + i] == #[trigger] FMTP@[i] by {
        assert(line.subrange(at, at + FMTP@.len())[i] == FMTP@[i]);
    }
    assert forall|i: int| 0 <= i < shared implies longer[i] == #[trigger] line[i] by {
        assert(longer.take(shared)[i] == line.take(shared)[i]);
    }
    assert(FMTP@[0] == 'a' && FMTP@[2] == 'f' && FMTP@[6] == ':');
    assert(line[at + 0] == 'a' && line[at + 2] == 'f' && line[at + 6] == ':');
    let w = lemma_trim_start(longer);
    let v = lemma_trim_start(line);
    assert(longer[at] == 'a' && longer[at + 2] == 'f');
    assert(w <= at && v <= at);
    assert(w == v) by {
        if w < v {
            assert(text::is_white_space(line[w]));
            assert(longer[w] == line[w]);
        } else if v < w {
            assert(text::is_white_space(longer[v]));
            assert(longer[v] == line[v]);
        }
    }
    let bare = text::trimmed(longer);
    let cut = lemma_trim_end(longer.skip(w));
    assert forall|i: int| 0 <= i < m implies longer[w + i] == #[trigger] prefix[i] by {
        assert(bare.subrange(0, m)[i] == prefix[i]);
        assert(bare[i] == longer.skip(w)[i]);
    }
    if w + m > at + 2 {
        assert(longer[w + (at + 2 - w)] == prefix[at + 2 - w]);
        assert(prefix.contains(prefix[at + 2 - w]));
    }
    let tail = line.skip(v);
    let n = lemma_trim_end(tail);
    if n <= at + 6 - v {
        assert(text::is_white_space(tail[at + 6 - v]));
        assert(tail[at + 6 - v] == line[at + 6]);
    }
    assert(text::trimmed(line).subrange(0, m) =~= prefix) by {
        assert forall|i: int| 0 <= i < m implies text::trimmed(line)[i] == prefix[i] by {
            assert(longer[w + i] == prefix[i]);
            assert(longer[w + i] == line[w + i]);
        }
    }
}

/// Codec parameters with more behind them are no hint where they were none
/// before.
proof fn lemma_extension_is_no_hint(line: Seq<char>, longer: Seq<char>, at: int)
    requires
        text::occurs_at(line, FMTP@, at),
        longer.len() >= line.len(),
        longer.take(at + FMTP@.len()) == line.take(at + FMTP@.len()),
        !is_standalone_hint(line),
    ensures
        !is_standalone_hint(longer),
{
    reveal_strlit("a=x-google-min-bitrate:");
    reveal_strlit("a=x-google-start-bitrate:");
    reveal_strlit("a=x-google-max-bitrate:");
    if text::has_prefix(text::trimmed(longer), MIN_HINT@) {
        lemma_extension_keeps_start(line, longer, at, MIN_HINT@);
    }
    if text::has_prefix(text::trimmed(longer), START_HINT@) {
        lemma_extension_keeps_start(line, longer, at, START_HINT@);
    }
    if text::has_prefix(text::trimmed(longer), MAX_HINT@) {
        lemma_extension_keeps_start(line, longer, at, MAX_HINT@);
    }
}

/// No line that holds nothing but a hint holds a word that the search for the
/// video codec's parameters looks for.
pub open spec fn hints_stand_apart(lines: Seq<Seq<char>>) -> bool {
    forall|i: int|
        0 <= i < lines.len() && is_standalone_hint(#[trigger] lines[i]) ==> !text::contains_text(
            lines[i],
            VIDEO@,
        ) && !text::contains_text(lines[i], FMTP@)
}

/// Such lines make no difference to the search.
proof fn lemma_search_passes_hints(lines: Seq<Seq<char>>)
    requires
        hints_stand_apart(lines),
    ensures
        ({
            let kept = lines.filter(|p: Seq<char>| !is_standalone_hint(p));
            match video_search(lines, FMTP@) {
                VideoSearch::Found(_, i, at) => video_search(kept, FMTP@) matches VideoSearch::Found(
                    _,
                    k,
                    place,
                ) && 0 <= i < lines.len() && 0 <= k < kept.len() && kept[k] == lines[i] && place
                    == at,
                VideoSearch::Before => video_search(kept, FMTP@) is Before,
                VideoSearch::Inside(_) => video_search(kept, FMTP@) is Inside,
                VideoSearch::Elsewhere(_) => video_search(kept, FMTP@) is Elsewhere,
            }
        }),
    decreases lines.len(),
{
    let keep = |p: Seq<char>| !is_standalone_hint(p);
    let kept = lines.filter(keep);
    reveal(Seq::filter);
    if lines.len() > 0 {
        let init = lines.drop_last();
        let line = lines.last();
        assert(hints_stand_apart(init)) by {
            assert forall|i: int| 0 <= i < init.len() && is_standalone_hint(
                #[trigger] init[i],
            ) implies !text::contains_text(init[i], VIDEO@) && !text::contains_text(
                init[i],
                FMTP@,
            ) by {
                assert(lines[i] == init[i]);
            }
        }
        lemma_search_passes_hints(init);
        lemma_search_place(init, FMTP@);
        assert(lines[lines.len() - 1] == line);
        if keep(line) {
            assert(kept.drop_last() =~= init.filter(keep));
            assert(kept.last() == line);
        } else {
            assert(kept =~= init.filter(keep));
            lemma_find_from_bounds(line, VIDEO@, 0);
            lemma_find_from_bounds(line, FMTP@, 0);
            if text::has_prefix(line, SECTION@) {
                lemma_section_is_no_hint(line);
            }
        }
    }
}

/// What is found is found all the same where its line is made longer behind it.
proof fn lemma_search_of_extended(lines: Seq<Seq<char>>, word: Seq<char>, longer: Seq<char>)
    requires
        video_search(lines, word) is Found,
        ({
            let line = lines[video_search(lines, word)->Found_1];
            let at = video_search(lines, word)->Found_2;
            &&& longer.len() >= line.len()
            &&& longer.take((at + word.len()) as int) == line.take((at + word.len()) as int)
        }),
        word.len() >= 2,
        !VIDEO@.contains(word[0]),
    ensures
        video_search(lines.update(video_search(lines, word)->Found_1, longer), word)
            == video_search(lines, word),
    decreases lines.len(),
{
    let i = video_search(lines, word)->Found_1;
    let at = video_search(lines, word)->Found_2;
    let changed = lines.update(i, longer);
    lemma_search_place(lines, word);
    let line = lines[i];
    let n = (at + word.len()) as int;
    if i < lines.len() - 1 {
        let init = lines.drop_last();
        lemma_search_of_extended(init, word, longer);
        assert(changed.drop_last() =~= init.update(i, longer));
    } else {
        let init = lines.drop_last();
        assert(changed.drop_last() =~= init);
        lemma_search_place(init, word);
        if video_search(init, word) is Before {
            let video = text::find_from(line, VIDEO@, 0)->0;
            lemma_find_from_bounds(line, VIDEO@, 0);
            lemma_find_from_bounds(line, word, video);
            assert(video + VIDEO@.len() <= at) by {
                if at < video + VIDEO@.len() {
                    assert(line.subrange(video, video + VIDEO@.len())[at - video] == line[at]);
                    assert(line.subrange(at, at + word.len())[0] == line[at]);
                    assert(VIDEO@.contains(VIDEO@[at - video]));
                }
            }
            lemma_find_from_prefix(line, longer, VIDEO@, 0, n);
            lemma_find_from_prefix(line, longer, word, video, n);
        } else {
            lemma_find_from_bounds(line, word, 0);
            lemma_find_from_prefix(line, longer, word, 0, n);
            lemma_same_start(line, longer, word, at);
        }
    }
}

/// Lines that agree up to the end of a word agree on whether they start a
/// section, and whether that is one of video.
proof fn lemma_same_start(line: Seq<char>, longer: Seq<char>, word: Seq<char>, at: int)
    requires
        text::occurs_at(line, word, at),
        line.len() <= longer.len(),
        longer.take(at + word.len()) == line.take(at + word.len()),
        word.len() >= 2,
        !VIDEO@.contains(word[0]),
    ensures
        text::has_prefix(longer, SECTION@) == text::has_prefix(line, SECTION@),
        text::has_prefix(longer, VIDEO@) == text::has_prefix(line, VIDEO@),
{
    reveal_strlit("m=");
    reveal_strlit("m=video");
    let n = at + word.len();
    assert(longer.subrange(0, 2) =~= longer.take(n).subrange(0, 2));
    assert(line.subrange(0, 2) =~= line.take(n).subrange(0, 2));
    assert(line.subrange(at, n)[0] == line[at]);
    assert(longer.take(n)[at] == line.take(n)[at]);
    let m = VIDEO@.len() as int;
    if at < m {
        assert(VIDEO@.contains(VIDEO@[at]));
        assert(text::has_prefix(line, VIDEO@) ==> line.subrange(0, m)[at] == VIDEO@[at]);
        assert(text::has_prefix(longer, VIDEO@) ==> longer.subrange(0, m)[at] == VIDEO@[at]);
    } else {
        assert(longer.subrange(0, m) =~= longer.take(n).subrange(0, m));
        assert(line.subrange(0, m) =~= line.take(n).subrange(0, m));
    }
}

/// What is found in a text is found at the same place in any text that begins
/// the same way.
proof fn lemma_find_from_prefix(s: Seq<char>, t: Seq<char>, part: Seq<char>, i: int, n: int)
    requires
        0 <= i,
        n <= s.len(),
        n <= t.len(),
        s.take(n) == t.take(n),
        text::find_from(s, part, i) matches Some(k) && k + part.len() <= n,
    ensures
        text::find_from(t, part, i) == text::find_from(s, part, i),
    decreases s.len() + 1 - i,
{
    lemma_find_from_bounds(s, part, i);
    assert(i + part.len() <= n);
    assert(s.subrange(i, i + part.len()) =~= s.take(n).subrange(i, i + part.len()));
    assert(t.subrange(i, i + part.len()) =~= t.take(n).subrange(i, i + part.len()));
    if !text::occurs_at(s, part, i) {
        lemma_find_from_prefix(s, t, part, i + 1, n);
    }
}

proof fn lemma_hint_is_one_line(lines: Seq<Seq<char>>, prefix: Seq<char>, fallback: Seq<char>)
    requires
        forall|i: int| 0 <= i < lines.len() ==> !(#[trigger] lines[i]).contains('\n'),
        !fallback.contains('\n'),
    ensures
        !hint_or(lines, prefix, fallback).contains('\n'),
    decreases lines.len(),
{
    if lines.len() > 0 {
        let line = lines.last();
        let bare = text::trimmed(line);
        let w = lemma_trim_start(line);
        let n = lemma_trim_end(line.skip(w));
        if text::has_prefix(bare, prefix) {
            let rest = bare.skip(prefix.len() as int);
            let v = lemma_trim_start(rest);
            let m = lemma_trim_end(rest.skip(v));
            let value = text::trimmed(rest);
            if value.contains('\n') {
                let k = choose|k: int| 0 <= k < value.len() && value[k] == '\n';
                assert(line[w + prefix.len() + v + k] == '\n');
                assert(lines[lines.len() - 1].contains('\n'));
            }
        } else {
            let init = lines.drop_last();
            assert forall|i: int| 0 <= i < init.len() implies !(#[trigger] init[i]).contains(
                '\n',
            ) by {
                assert(init[i] == lines[i]);
            }
            lemma_hint_is_one_line(init, prefix, fallback);
        }
    }
}

proof fn lemma_holds_neither(a: Seq<char>, b: Seq<char>)
    requires
        !a.contains('\n'),
        !b.contains('\n'),
    ensures
        !(a + b).contains('\n'),
{
    if (a + b).contains('\n') {
        let k = choose|k: int| 0 <= k < (a + b).len() && (a + b)[k] == '\n';
        if k < a.len() {
            assert(a[k] == '\n');
        } else {
            assert(b[k - a.len()] == '\n');
        }
    }
}

/// The hints as codec parameters stand on one line, and bear the mark of such.
proof fn lemma_hint_parameters(s: Seq<char>)
    ensures
        !hint_parameters(s).contains('\n'),
        text::contains_text(hint_parameters(s), HINT_MARK@),
{
    let lines = text::lines(s);
    lemma_lines_hold_no_line_feed(s);
    reveal_strlit(";x-google-min-bitrate=");
    reveal_strlit(";x-google-start-bitrate=");
    reveal_strlit(";x-google-max-bitrate=");
    reveal_strlit("x-google-start-bitrate");
    reveal_strlit("2000");
    reveal_strlit("4000");
    lemma_hint_is_one_line(lines, MIN_HINT@, "2000"@);
    lemma_hint_is_one_line(lines, START_HINT@, "2000"@);
    lemma_hint_is_one_line(lines, MAX_HINT@, "4000"@);
    let a = ";x-google-min-bitrate="@;
    let b = hint_or(lines, MIN_HINT@, "2000"@);
    let c = ";x-google-start-bitrate="@;
    let d = hint_or(lines, START_HINT@, "2000"@);
    let e = ";x-google-max-bitrate="@;
    let f = hint_or(lines, MAX_HINT@, "4000"@);
    lemma_holds_neither(a, b);
    lemma_holds_neither(a + b, c);
    lemma_holds_neither(a + b + c, d);
    lemma_holds_neither(a + b + c + d, e);
    lemma_holds_neither(a + b + c + d + e, f);
    let all = hint_parameters(s);
    let from = (a + b).len() as int + 1;
    assert(all.subrange(from, from + HINT_MARK@.len()) =~= HINT_MARK@);
    assert(text::occurs_at(all, HINT_MARK@, from));
}

/// A line that is made longer keeps what it begins with, up to the carriage
/// return, and holds what is added.
proof fn lemma_extended(line: Seq<char>, added: Seq<char>, at: int)
    requires
        text::occurs_at(line, FMTP@, at),
    ensures
        extended_line(line, added).len() >= line.len(),
        extended_line(line, added).take(at + FMTP@.len()) == line.take(at + FMTP@.len()),
        text::contains_text(added, HINT_MARK@) ==> text::contains_text(
            extended_line(line, added).skip(at),
            HINT_MARK@,
        ),
        !line.contains('\n') && !added.contains('\n') ==> !extended_line(line, added).contains(
            '\n',
        ),
{
    reveal_strlit("a=fmtp:");
    let longer = extended_line(line, added);
    let shared = at + FMTP@.len();
    let head = if line.last() == '\r' {
        line.len() - 1
    } else {
        line.len() as int
    };
    assert(shared <= head) by {
        if shared > head {
            assert(line.subrange(at, shared)[6] == line[line.len() - 1]);
            assert(FMTP@[6] == ':');
        }
    }
    assert(longer.take(shared) =~= line.take(shared));
    if text::contains_text(added, HINT_MARK@) {
        let k = choose|k: int| text::occurs_at(added, HINT_MARK@, k);
        let from = head - at + k;
        assert(longer.skip(at).subrange(from, from + HINT_MARK@.len()) =~= added.subrange(
            k,
            k + HINT_MARK@.len(),
        ));
        assert(text::occurs_at(longer.skip(at), HINT_MARK@, from));
    }
    if !line.contains('\n') && !added.contains('\n') && longer.contains('\n') {
        let k = choose|k: int| 0 <= k < longer.len() && longer[k] == '\n';
        if k < head {
            assert(line[k] == '\n');
        } else if k < head + added.len() {
            assert(added[k - head] == '\n');
        }
    }
}

/// Taking the lines with hints out of a description whose video codec has them
/// among its parameters leaves one to which moving them again does nothing.
proof fn lemma_marked_is_settled(s: Seq<char>)
    requires
        hints_stand_apart(text::split(s, '\n')),
        video_search(text::split(s, '\n'), FMTP@) matches VideoSearch::Found(_, i, at)
            && text::contains_text(text::split(s, '\n')[i].skip(at), HINT_MARK@),
    ensures
        with_hints(without_standalone(s)) == without_standalone(s),
{
    let lines = text::split(s, '\n');
    let out = without_standalone(s);
    let kept = lemma_lines_kept(s);
    lemma_search_passes_hints(lines);
    let left = text::split(out, '\n');
    assert(left.take(kept.len() as int) =~= kept);
    lemma_search_stays(left, FMTP@, kept.len() as int);
    no_standalone_hint_is_left(s);
    description_without_standalone_hints_is_kept(out);
}

/// Moving the hints of an answer a second time changes nothing.
pub proof fn hints_are_moved_once(s: Seq<char>)
    requires
        hints_stand_apart(text::split(s, '\n')),
    ensures
        with_hints(with_hints(s)) == with_hints(s),
{
    let lines = text::split(s, '\n');
    if let VideoSearch::Found(_, i, at) = video_search(lines, FMTP@) {
        lemma_search_place(lines, FMTP@);
        if text::contains_text(lines[i].skip(at), HINT_MARK@) {
            lemma_marked_is_settled(s);
        } else {
            let hints = hint_parameters(s);
            let longer = extended_line(lines[i], hints);
            let changed = lines.update(i, longer);
            lemma_hint_parameters(s);
            lemma_extended(lines[i], hints, at);
            text::lemma_split_pieces_hold_no_separator(s, '\n');
            assert forall|k: int| 0 <= k < changed.len() implies !(#[trigger] changed[k]).contains(
                '\n',
            ) by {
                assert(!lines[k].contains('\n'));
            }
            text::split_undoes_join(changed, '\n');
            reveal_strlit("m=video");
            reveal_strlit("a=fmtp:");
            lemma_search_of_extended(lines, FMTP@, longer);
            assert(text::contains_text(lines[i], FMTP@));
            lemma_extension_is_no_hint(lines[i], longer, at);
            assert(hints_stand_apart(changed)) by {
                assert forall|k: int| 0 <= k < changed.len() && is_standalone_hint(
                    #[trigger] changed[k],
                ) implies !text::contains_text(changed[k], VIDEO@) && !text::contains_text(
                    changed[k],
                    FMTP@,
                ) by {
                    assert(k != i);
                    assert(changed[k] == lines[k]);
                }
            }
            lemma_marked_is_settled(text::join(changed, seq!['\n']));
        }
    }
}

} // verus!
