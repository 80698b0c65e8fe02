//! What texts, numbers and properties are read as: laws on what the rest is
//! built on.

use crate::endpoints;
use crate::properties;
use crate::properties::{PropertyMap, PropertyTree};
use crate::text;
use vstd::prelude::*;

verus! {

// ---------------------------------------------------------------------------
// Texts
// ---------------------------------------------------------------------------

/// A text begins with another where it is that with something behind it, ends
/// with it where it is that behind something, and holds it where it is between.
pub proof fn parts_are_where_they_are(before: Seq<char>, part: Seq<char>, after: Seq<char>, s: Seq<char>)
    ensures
        text::has_prefix(part + after, part),
        text::has_suffix(before + part, part),
        text::contains_text(before + part + after, part),
        text::has_prefix(s, part) ==> exists|rest: Seq<char>| s == #[trigger] (part + rest),
        text::has_suffix(s, part) ==> exists|rest: Seq<char>| s == #[trigger] (rest + part),
        text::contains_text(s, part) ==> exists|a: Seq<char>, b: Seq<char>|
            s == #[trigger] (a + part + b),
{
    assert((part + after).subrange(0, part.len() as int) =~= part);
    let n = before.len() as int;
    assert((before + part).subrange(n, n + part.len()) =~= part);
    assert((before + part + after).subrange(n, n + part.len()) =~= part);
    assert(text::occurs_at(before + part + after, part, n));
    if text::has_prefix(s, part) {
        assert(s =~= part + s.skip(part.len() as int));
    }
    if text::has_suffix(s, part) {
        assert(s =~= s.take(s.len() - part.len()) + part);
    }
    if text::contains_text(s, part) {
        let i = choose|i: int| text::occurs_at(s, part, i);
        assert(s =~= s.take(i) + part + s.skip(i + part.len()));
    }
}

/// What is looked for is found where it stands first, and not at all where it
/// stands nowhere.
pub proof fn first_place_is_found(s: Seq<char>, part: Seq<char>, i: int)
    requires
        0 <= i,
    ensures
        text::find_from(s, part, i) matches Some(k) ==> i <= k && text::occurs_at(s, part, k)
            && forall|m: int| i <= m < k ==> !#[trigger] text::occurs_at(s, part, m),
        text::find_from(s, part, i) is None ==> forall|m: int|
            i <= m ==> !#[trigger] text::occurs_at(s, part, m),
    decreases s.len() + 1 - i,
{
    if i + part.len() <= s.len() && !text::occurs_at(s, part, i) {
        first_place_is_found(s, part, i + 1);
    }
}

/// The value under a name is that of the first entry with the name.
pub proof fn first_entry_counts<V>(entries: Seq<(Seq<char>, V)>, name: Seq<char>, value: V, other: Seq<char>)
    ensures
        text::lookup(seq![(name, value)] + entries, name) == Some(value),
        other != name ==> text::lookup(seq![(name, value)] + entries, other) == text::lookup(
            entries,
            other,
        ),
        text::lookup(Seq::<(Seq<char>, V)>::empty(), name) is None,
{
    let all = seq![(name, value)] + entries;
    assert(all.skip(1) =~= entries);
}

/// Text between no white space is what is left of it in white space.
pub proof fn white_space_around_goes(before: char, s: Seq<char>, after: char)
    requires
        text::is_white_space(before),
        text::is_white_space(after),
        s.len() > 0,
        !text::is_white_space(s[0]),
        !text::is_white_space(s.last()),
    ensures
        text::trimmed(s) == s,
        text::trimmed(seq![before] + s) == s,
        text::trimmed(s.push(after)) == s,
        text::trimmed(seq![before] + s.push(after)) == s,
        text::trimmed(Seq::<char>::empty()) == Seq::<char>::empty(),
        text::trimmed(seq![before]).len() == 0,
{
    assert((seq![before] + s).skip(1) =~= s);
    assert((seq![before] + s.push(after)).skip(1) =~= s.push(after));
    assert(s.push(after).drop_last() =~= s);
    assert(seq![before].skip(1) =~= Seq::<char>::empty());
}

/// White space is what separates words: the blank, tabs and line ends are,
/// letters, digits and marks are not.
pub proof fn blanks_and_line_ends_are_white_space(c: char)
    ensures
        c == ' ' || c == '\t' || c == '\n' || c == '\r' ==> text::is_white_space(c),
        '!' <= c <= '~' ==> !text::is_white_space(c),
{
}

proof fn lemma_word(head: Seq<char>, word: Seq<char>)
    requires
        word.len() > 0,
        forall|k: int| 0 <= k < word.len() ==> !text::is_white_space(#[trigger] word[k]),
        head.len() == 0 || text::is_white_space(head.last()),
    ensures
        text::words(head + word) == text::words(head).push(word),
    decreases word.len(),
{
    let s = head + word;
    assert(!text::is_white_space(word[word.len() - 1]));
    if word.len() == 1 {
        assert(s.drop_last() =~= head);
        assert(word =~= seq![s.last()]);
    } else {
        let init = word.drop_last();
        assert forall|k: int| 0 <= k < init.len() implies !text::is_white_space(
            #[trigger] init[k],
        ) by {
            assert(init[k] == word[k]);
        }
        lemma_word(head, init);
        assert(s.drop_last() =~= head + init);
        assert(!text::is_white_space(word[word.len() - 2]));
        assert(s[s.len() - 2] == word[word.len() - 2]);
        let before = text::words(head);
        assert(before.push(init).drop_last() =~= before);
        assert(init.push(word.last()) =~= word);
    }
}

/// Words with blanks between them are read as the words.
pub proof fn words_read_back(all: Seq<Seq<char>>)
    requires
        forall|i: int| 0 <= i < all.len() ==> (#[trigger] all[i]).len() > 0,
        forall|i: int, k: int|
            0 <= i < all.len() && 0 <= k < all[i].len() ==> !text::is_white_space(
                #[trigger] all[i][k],
            ),
    ensures
        text::words(text::join(all, " "@)) == all,
    decreases all.len(),
{
    reveal_strlit(" ");
    if all.len() == 0 {
        assert(text::join(all, " "@) =~= Seq::<char>::empty());
        assert(all =~= Seq::<Seq<char>>::empty());
    } else {
        let init = all.drop_last();
        let word = all.last();
        assert forall|k: int| 0 <= k < word.len() implies !text::is_white_space(
            #[trigger] word[k],
        ) by {
            assert(!text::is_white_space(all[all.len() - 1][k]));
        }
        assert forall|i: int| 0 <= i < init.len() implies (#[trigger] init[i]).len() > 0 by {
            assert(all[i].len() > 0);
        }
        assert forall|i: int, k: int| 0 <= i < init.len() && 0 <= k < init[i].len() implies
            !text::is_white_space(#[trigger] init[i][k]) by {
            assert(!text::is_white_space(all[i][k]));
        }
        words_read_back(init);
        assert(all[all.len() - 1].len() > 0);
        if all.len() == 1 {
            lemma_word(Seq::empty(), word);
            assert(Seq::<char>::empty() + word =~= word);
            assert(all =~= Seq::<Seq<char>>::empty().push(word));
        } else {
            let head = text::join(init, " "@) + " "@;
            assert(head.drop_last() =~= text::join(init, " "@));
            lemma_word(head, word);
            assert(text::join(all, " "@) =~= head + word);
            assert(all =~= init.push(word));
        }
    }
}

/// The digits of a number are those of its tenth and its last digit, with a
/// minus sign in front where it is below zero.
pub proof fn numbers_are_written_in_digits(n: nat, d: nat)
    requires
        d < 10,
    ensures
        n > 0 ==> text::decimal(n * 10 + d) == text::decimal(n).push(
            seq!['0', '1', '2', '3', '4', '5', '6', '7', '8', '9'][d as int],
        ),
        text::decimal(d) == seq![
            seq!['0', '1', '2', '3', '4', '5', '6', '7', '8', '9'][d as int],
        ],
        n > 0 ==> text::decimal_int(-n) == seq!['-'] + text::decimal(n),
        text::decimal_int(n as int) == text::decimal(n),
{
    assert((n * 10 + d) / 10 == n && (n * 10 + d) % 10 == d);
}

// ---------------------------------------------------------------------------
// Properties
// ---------------------------------------------------------------------------

/// A property is read where it is set and of the kind that is asked for; in
/// any other case the fallback counts. No other property has a say.
pub proof fn properties_are_read_under_their_names(
    p: PropertyMap,
    name: Seq<char>,
    text_fallback: Seq<char>,
    bool_fallback: bool,
    int_fallback: i64,
)
    ensures
        properties::text_or(p, name, text_fallback) == (match text::lookup(p, name) {
            Some(PropertyTree::Text(s)) => s,
            _ => text_fallback,
        }),
        properties::bool_or(p, name, bool_fallback) == (match text::lookup(p, name) {
            Some(PropertyTree::Bool(b)) => b,
            _ => bool_fallback,
        }),
        properties::int_or(p, name, int_fallback) == (match text::lookup(p, name) {
            Some(PropertyTree::Int(n)) => n,
            _ => int_fallback,
        }),
        properties::filled_text_or(p, name, text_fallback) == (match text::lookup(p, name) {
            Some(PropertyTree::Text(s)) => if exists|i: int|
                0 <= i < s.len() && !text::is_white_space(#[trigger] s[i]) {
                s
            } else {
                text_fallback
            },
            _ => text_fallback,
        }),
{
    if let Some(PropertyTree::Text(s)) = text::lookup(p, name) {
        lemma_blank(s);
    }
}

/// A number is read whether it is written as signed or as unsigned, unless it
/// is a signed one below the least that is asked for.
pub proof fn numbers_are_read_of_either_kind(p: PropertyMap, name: Seq<char>, least: i64)
    requires
        least >= 0,
    ensures
        properties::unsigned_from(p, name, least) == (match text::lookup(p, name) {
            Some(PropertyTree::UInt(n)) => Some(n),
            Some(PropertyTree::Int(n)) => if n >= least {
                Some(n as u64)
            } else {
                None
            },
            _ => None,
        }),
{
}

proof fn lemma_blank(s: Seq<char>)
    ensures
        text::trimmed(s).len() > 0 <==> exists|i: int|
            0 <= i < s.len() && !text::is_white_space(#[trigger] s[i]),
    decreases s.len(),
{
    if s.len() > 0 && text::is_white_space(s[0]) {
        let rest = s.skip(1);
        lemma_blank(rest);
        if exists|i: int| 0 <= i < s.len() && !text::is_white_space(#[trigger] s[i]) {
            let i = choose|i: int| 0 <= i < s.len() && !text::is_white_space(#[trigger] s[i]);
            assert(rest[i - 1] == s[i]);
        }
        if exists|i: int| 0 <= i < rest.len() && !text::is_white_space(#[trigger] rest[i]) {
            let i = choose|i: int|
                0 <= i < rest.len() && !text::is_white_space(#[trigger] rest[i]);
            assert(s[i + 1] == rest[i]);
        }
    } else if s.len() > 0 {
        lemma_trim_end_keeps(s);
        assert(!text::is_white_space(s[0]));
    }
}

proof fn lemma_trim_end_keeps(s: Seq<char>)
    requires
        s.len() > 0,
        !text::is_white_space(s[0]),
    ensures
        text::trim_end(s).len() > 0,
    decreases s.len(),
{
    if text::is_white_space(s.last()) {
        assert(s.len() > 1);
        lemma_trim_end_keeps(s.drop_last());
    }
}

/// Two texts are the same but for case where each letter of the one is that of the
/// other, in either case; nothing but the letters of the Latin alphabet has a case.
pub proof fn case_is_that_of_latin_letters(a: Seq<char>, b: Seq<char>, c: char)
    ensures
        text::equal_ignoring_ascii_case(a, a),
        text::equal_ignoring_ascii_case(a, b) ==> a.len() == b.len(),
        text::equal_ignoring_ascii_case(a, b) <==> text::equal_ignoring_ascii_case(b, a),
        text::ascii_lower('A') == 'a',
        text::ascii_lower('Z') == 'z',
        'A' <= c <= 'Z' ==> text::ascii_lower(c) as int == c as int + 32,
        !('A' <= c <= 'Z') ==> text::ascii_lower(c) == c,
{
    if text::equal_ignoring_ascii_case(a, b) {
        assert forall|i: int| 0 <= i < b.len() implies text::ascii_lower(#[trigger] b[i])
            == text::ascii_lower(a[i]) by {
            assert(text::ascii_lower(a[i]) == text::ascii_lower(b[i]));
        }
    }
    if text::equal_ignoring_ascii_case(b, a) {
        assert forall|i: int| 0 <= i < a.len() implies text::ascii_lower(#[trigger] a[i])
            == text::ascii_lower(b[i]) by {
            assert(text::ascii_lower(b[i]) == text::ascii_lower(a[i]));
        }
    }
}

/// The order of texts is that of a dictionary: what they begin with alike does not
/// count, a text comes before its continuations, and the first character that
/// differs decides.
pub proof fn texts_are_in_dictionary_order(
    start: Seq<char>,
    a: Seq<char>,
    b: Seq<char>,
    c: char,
    d: char,
)
    ensures
        text::no_later(start + a, start + b) == text::no_later(a, b),
        text::no_later(start, start + a),
        a.len() > 0 ==> !text::no_later(start + a, start),
        c != d ==> (text::no_later(start + seq![c] + a, start + seq![d] + b) <==> c < d),
    decreases start.len(),
{
    if start.len() > 0 {
        let rest = start.skip(1);
        texts_are_in_dictionary_order(rest, a, b, c, d);
        assert((start + a).skip(1) =~= rest + a);
        assert((start + b).skip(1) =~= rest + b);
        assert((start + seq![c] + a).skip(1) =~= rest + seq![c] + a);
        assert((start + seq![d] + b).skip(1) =~= rest + seq![d] + b);
    } else {
        assert(start + a =~= a);
        assert(start + b =~= b);
    }
}

/// A number may be written with a plus sign, and no other sign; what has anything
/// but digits in it is no number, and neither is one that is too large.
pub proof fn only_digits_are_numbers(s: Seq<char>, n: nat, max: nat, i: int)
    ensures
        n <= max ==> text::parsed_number(seq!['+'] + text::decimal(n), max) == Some(n),
        n <= max ==> text::parsed_number(text::decimal(n), max) == Some(n),
        n > max ==> text::parsed_number(text::decimal(n), max) is None,
        0 < i < s.len() && !('0' <= s[i] <= '9') ==> text::parsed_number(s, max) is None,
        s.len() == 0 ==> text::parsed_number(s, max) is None,
        s.len() > 0 && s[0] != '+' && !('0' <= s[0] <= '9') ==> text::parsed_number(s, max) is None,
{
    let digits = text::decimal(n);
    let signed = seq!['+'] + digits;
    assert(signed.skip(1) =~= digits);
    text::parse_reads_decimal(n, n);
    text::lemma_decimal_is_digits(n);
    assert(text::is_digit(digits[0]));
    if 0 < i < s.len() {
        let read = text::number_digits(s);
        if s[0] == '+' {
            assert(read[i - 1] == s[i]);
        } else {
            assert(read[i] == s[i]);
        }
    }
}

/// A line loses the carriage return that it ends with, and nothing else.
pub proof fn lines_lose_their_carriage_return(line: Seq<char>)
    ensures
        text::chomped(line.push('\r')) == line,
        line.len() > 0 && line.last() != '\r' ==> text::chomped(line) == line,
{
    assert(line.push('\r').drop_last() =~= line);
}

/// Blank bytes are the space, the tabulator, and the ends of lines and pages.
pub proof fn blank_bytes_are_white_space(b: u8)
    ensures
        endpoints::is_blank_byte(b) <==> b as char == ' ' || b as char == '\t' || b as char
            == '\n' || b as char == '\r' || b == 12,
{
}

} // verus!
