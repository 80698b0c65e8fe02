//! Text as sequences of characters: the operations that the rest of the
//! library is stated and proved with.

use vstd::prelude::*;

verus! {

/// `String::push` puts one character at the end of the text and changes
/// nothing before it.
pub assume_specification[ std::string::String::push ](s: &mut std::string::String, c: char)
    ensures
        final(s)@ == old(s)@.push(c),
;

// ---------------------------------------------------------------------------
// Characters
// ---------------------------------------------------------------------------

pub open spec fn is_digit(c: char) -> bool {
    '0' <= c <= '9'
}

pub open spec fn is_hex_digit(c: char) -> bool {
    ||| '0' <= c <= '9'
    ||| 'a' <= c <= 'f'
    ||| 'A' <= c <= 'F'
}

pub open spec fn is_alphanumeric(c: char) -> bool {
    ||| '0' <= c <= '9'
    ||| 'a' <= c <= 'z'
    ||| 'A' <= c <= 'Z'
}

/// The characters with the Unicode `White_Space` property.
pub open spec fn is_white_space(c: char) -> bool {
    ||| '\u{9}' <= c <= '\u{d}'
    ||| c == ' '
    ||| c == '\u{85}'
    ||| c == '\u{a0}'
    ||| c == '\u{1680}'
    ||| '\u{2000}' <= c <= '\u{200a}'
    ||| c == '\u{2028}'
    ||| c == '\u{2029}'
    ||| c == '\u{202f}'
    ||| c == '\u{205f}'
    ||| c == '\u{3000}'
}

/// ASCII letters in lower case, everything else as it is.
pub open spec fn ascii_lower(c: char) -> char {
    if 'A' <= c <= 'Z' {
        (c as u32 + 32) as char
    } else {
        c
    }
}

pub fn char_is_digit(c: char) -> (r: bool)
    ensures
        r == is_digit(c),
{
    '0' <= c && c <= '9'
}

pub fn char_is_hex_digit(c: char) -> (r: bool)
    ensures
        r == is_hex_digit(c),
{
    ('0' <= c && c <= '9') || ('a' <= c && c <= 'f') || ('A' <= c && c <= 'F')
}

pub fn char_is_alphanumeric(c: char) -> (r: bool)
    ensures
        r == is_alphanumeric(c),
{
    ('0' <= c && c <= '9') || ('a' <= c && c <= 'z') || ('A' <= c && c <= 'Z')
}

pub fn char_is_white_space(c: char) -> (r: bool)
    ensures
        r == is_white_space(c),
{
    ('\u{9}' <= c && c <= '\u{d}') || c == ' ' || c == '\u{85}' || c == '\u{a0}' || c == '\u{1680}'
        || ('\u{2000}' <= c && c <= '\u{200a}') || c == '\u{2028}' || c == '\u{2029}'
        || c == '\u{202f}' || c == '\u{205f}' || c == '\u{3000}'
}

// ---------------------------------------------------------------------------
// Between text and characters
// ---------------------------------------------------------------------------

/// The characters of a text.
pub fn chars_of(s: &str) -> (r: Vec<char>)
    ensures
        r@ == s@,
{
    let mut out: Vec<char> = Vec::new();
    for c in it: s.chars()
        invariant
            out@ =~= it.seq().take(it.index()),
    {
        out.push(c);
    }
    out
}

/// The text made of the characters `v[from..to]`.
pub fn text_between(v: &Vec<char>, from: usize, to: usize) -> (r: String)
    requires
        from <= to <= v.len(),
    ensures
        r@ == v@.subrange(from as int, to as int),
{
    let mut out: String = String::new();
    let mut i: usize = from;
    while i < to
        invariant
            from <= i <= to <= v.len(),
            out@ == v@.subrange(from as int, i as int),
        decreases to - i,
    {
        out.push(v[i]);
        i += 1;
    }
    out
}

/// The text made of the given characters.
pub fn text_of(v: &Vec<char>) -> (r: String)
    ensures
        r@ == v@,
{
    let r = text_between(v, 0, v.len());
    assert(v@.subrange(0, v@.len() as int) =~= v@);
    r
}

/// Whether two texts hold the same characters.
pub fn same(a: &str, b: &str) -> (r: bool)
    ensures
        r == (a@ == b@),
{
    a.to_owned() == b.to_owned()
}

// ---------------------------------------------------------------------------
// Prefixes, suffixes, parts
// ---------------------------------------------------------------------------

/// The text `part` stands in `s` at position `i`.
pub open spec fn occurs_at(s: Seq<char>, part: Seq<char>, i: int) -> bool {
    0 <= i && i + part.len() <= s.len() && s.subrange(i, i + part.len()) == part
}

pub open spec fn contains_text(s: Seq<char>, part: Seq<char>) -> bool {
    exists|i: int| occurs_at(s, part, i)
}

/// Whether `part` stands in `v` at position `i`.
pub fn part_at(v: &Vec<char>, part: &Vec<char>, i: usize) -> (r: bool)
    ensures
        r == occurs_at(v@, part@, i as int),
{
    if v.len() < part.len() || v.len() - part.len() < i {
        return false;
    }
    let mut k: usize = 0;
    while k < part.len()
        invariant
            k <= part.len(),
            i + part.len() <= v.len(),
            forall|j: int| 0 <= j < k ==> v@[i + j] == part@[j],
        decreases part.len() - k,
    {
        if v[i + k] != part[k] {
            assert(v@.subrange(i as int, i + part@.len())[k as int] != part@[k as int]);
            return false;
        }
        k += 1;
    }
    assert(v@.subrange(i as int, i + part@.len()) =~= part@);
    true
}

pub open spec fn has_prefix(s: Seq<char>, p: Seq<char>) -> bool {
    occurs_at(s, p, 0)
}

pub open spec fn has_suffix(s: Seq<char>, p: Seq<char>) -> bool {
    occurs_at(s, p, s.len() - p.len())
}

pub fn starts_with(s: &str, p: &str) -> (r: bool)
    ensures
        r == has_prefix(s@, p@),
{
    let v = chars_of(s);
    let w = chars_of(p);
    part_at(&v, &w, 0)
}

pub fn ends_with(s: &str, p: &str) -> (r: bool)
    ensures
        r == has_suffix(s@, p@),
{
    let v = chars_of(s);
    let w = chars_of(p);
    if v.len() < w.len() {
        return false;
    }
    part_at(&v, &w, v.len() - w.len())
}

/// What follows the prefix `p`, if the text has it.
pub fn strip_prefix(s: &str, p: &str) -> (r: Option<String>)
    ensures
        r is Some == has_prefix(s@, p@),
        r matches Some(t) ==> t@ == s@.skip(p@.len() as int) && s@ == p@ + t@,
{
    let v = chars_of(s);
    let w = chars_of(p);
    if part_at(&v, &w, 0) {
        let t = text_between(&v, w.len(), v.len());
        proof {
            assert(t@ =~= s@.skip(p@.len() as int));
            assert(s@ =~= s@.subrange(0, p@.len() as int) + t@);
        }
        Some(t)
    } else {
        None
    }
}

/// What comes before the suffix `p`, if the text has it.
pub fn strip_suffix(s: &str, p: &str) -> (r: Option<String>)
    ensures
        r is Some == has_suffix(s@, p@),
        r matches Some(t) ==> t@ == s@.take(s@.len() - p@.len()) && s@ == t@ + p@,
{
    let v = chars_of(s);
    let w = chars_of(p);
    if v.len() < w.len() {
        return None;
    }
    let n: usize = v.len() - w.len();
    if part_at(&v, &w, n) {
        let t = text_between(&v, 0, n);
        proof {
            assert(t@ =~= s@.take(n as int));
            assert(s@ =~= t@ + s@.subrange(n as int, n + p@.len()));
        }
        Some(t)
    } else {
        None
    }
}

pub fn contains(s: &str, part: &str) -> (r: bool)
    ensures
        r == contains_text(s@, part@),
{
    let v = chars_of(s);
    let w = chars_of(part);
    if v.len() < w.len() {
        return false;
    }
    let mut i: usize = 0;
    let last: usize = v.len() - w.len();
    while i <= last
        invariant
            v@ == s@,
            w@ == part@,
            last == v.len() - w.len(),
            w.len() <= v.len(),
            i <= last + 1,
            forall|j: int| 0 <= j < i ==> !occurs_at(s@, part@, j),
        decreases last + 1 - i,
    {
        if part_at(&v, &w, i) {
            assert(occurs_at(s@, part@, i as int));
            return true;
        }
        if i == last {
            assert forall|j: int| !occurs_at(s@, part@, j) by {
                if 0 <= j && j + part@.len() <= s@.len() {
                    assert(j <= last);
                }
            }
            return false;
        }
        i += 1;
    }
    false
}

/// The first position from `i` on at which `part` stands in `s`.
pub open spec fn find_from(s: Seq<char>, part: Seq<char>, i: int) -> Option<int>
    decreases s.len() + 1 - i,
{
    if i < 0 || i + part.len() > s.len() {
        None
    } else if occurs_at(s, part, i) {
        Some(i)
    } else {
        find_from(s, part, i + 1)
    }
}

/// The first position at which `part` stands in `v`.
pub fn find_part(v: &Vec<char>, part: &Vec<char>) -> (r: Option<usize>)
    ensures
        r matches Some(i) ==> find_from(v@, part@, 0) == Some(i as int) && i + part.len()
            <= v.len(),
        r is None ==> find_from(v@, part@, 0) is None,
{
    if v.len() < part.len() {
        return None;
    }
    let last: usize = v.len() - part.len();
    let mut i: usize = 0;
    while i < last
        invariant
            i <= last,
            last + part.len() == v.len(),
            find_from(v@, part@, i as int) == find_from(v@, part@, 0),
        decreases last - i,
    {
        if part_at(v, part, i) {
            return Some(i);
        }
        i += 1;
    }
    if part_at(v, part, last) {
        Some(last)
    } else {
        proof {
            assert(find_from(v@, part@, last + 1) is None);
        }
        None
    }
}

/// The first position from `from` on at which `part` stands.
pub fn find_text_from(v: &Vec<char>, part: &str, from: usize) -> (r: Option<usize>)
    requires
        from <= v.len(),
    ensures
        r matches Some(i) ==> find_from(v@, part@, from as int) == Some(i as int) && from
            <= i && i + part@.len() <= v.len(),
        r is None ==> find_from(v@, part@, from as int) is None,
{
    let w = chars_of(part);
    if v.len() < w.len() {
        return None;
    }
    let last: usize = v.len() - w.len();
    if from > last {
        return None;
    }
    let mut i: usize = from;
    while i < last
        invariant
            from <= i <= last,
            w@ == part@,
            last + w.len() == v.len(),
            find_from(v@, part@, i as int) == find_from(v@, part@, from as int),
        decreases last - i,
    {
        if part_at(v, &w, i) {
            return Some(i);
        }
        i += 1;
    }
    if part_at(v, &w, last) {
        Some(last)
    } else {
        proof {
            assert(find_from(v@, part@, last + 1) is None);
        }
        None
    }
}

/// Every character of the text satisfies the predicate.
pub open spec fn all_chars(s: Seq<char>, ok: spec_fn(char) -> bool) -> bool {
    forall|i: int| 0 <= i < s.len() ==> ok(#[trigger] s[i])
}

// ---------------------------------------------------------------------------
// Splitting and joining
// ---------------------------------------------------------------------------

/// The pieces of `s` between the separators, in order. There is always one
/// piece more than there are separators.
pub open spec fn split(s: Seq<char>, sep: char) -> Seq<Seq<char>>
    decreases s.len(),
{
    if s.len() == 0 {
        seq![Seq::<char>::empty()]
    } else {
        let init = split(s.drop_last(), sep);
        if s.last() == sep {
            init.push(Seq::<char>::empty())
        } else {
            init.drop_last().push(init.last().push(s.last()))
        }
    }
}

/// The parts one after another, with `sep` between each two.
pub open spec fn join(parts: Seq<Seq<char>>, sep: Seq<char>) -> Seq<char>
    decreases parts.len(),
{
    if parts.len() == 0 {
        Seq::empty()
    } else if parts.len() == 1 {
        parts[0]
    } else {
        join(parts.drop_last(), sep) + sep + parts.last()
    }
}

/// The texts of a vector, as sequences of characters.
pub open spec fn texts(v: Seq<String>) -> Seq<Seq<char>> {
    v.map_values(|s: String| s@)
}

pub proof fn lemma_split_not_empty(s: Seq<char>, sep: char)
    ensures
        split(s, sep).len() >= 1,
    decreases s.len(),
{
    if s.len() > 0 {
        lemma_split_not_empty(s.drop_last(), sep);
    }
}

pub proof fn lemma_split_step(s: Seq<char>, sep: char, i: int)
    requires
        0 <= i < s.len(),
    ensures
        split(s.take(i + 1), sep) == if s[i] == sep {
            split(s.take(i), sep).push(Seq::<char>::empty())
        } else {
            let init = split(s.take(i), sep);
            init.drop_last().push(init.last().push(s[i]))
        },
{
    assert(s.take(i + 1).drop_last() =~= s.take(i));
    assert(s.take(i + 1).last() == s[i]);
}

/// The pieces of a text between the separators.
pub fn split_text(s: &str, sep: char) -> (r: Vec<String>)
    ensures
        texts(r@) == split(s@, sep),
        r.len() >= 1,
{
    let v = chars_of(s);
    let mut done: Vec<String> = Vec::new();
    let mut current: String = String::new();
    let mut i: usize = 0;
    proof {
        assert(s@.take(0) =~= Seq::<char>::empty());
        assert(texts(done@).push(current@) =~= split(s@.take(0), sep));
    }
    while i < v.len()
        invariant
            v@ == s@,
            i <= v.len(),
            texts(done@).push(current@) == split(s@.take(i as int), sep),
        decreases v.len() - i,
    {
        let c = v[i];
        proof {
            lemma_split_step(s@, sep, i as int);
            assert(texts(done@).push(current@).drop_last() =~= texts(done@));
        }
        if c == sep {
            let ghost before = texts(done@).push(current@);
            done.push(current);
            current = String::new();
            assert(texts(done@) =~= before);
        } else {
            current.push(c);
        }
        i += 1;
    }
    proof {
        assert(s@.take(s@.len() as int) =~= s@);
    }
    let ghost before = texts(done@).push(current@);
    done.push(current);
    assert(texts(done@) =~= before);
    done
}

/// The parts one after another, with `sep` between each two.
pub fn join_texts(parts: &Vec<String>, sep: &str) -> (r: String)
    ensures
        r@ == join(texts(parts@), sep@),
{
    if parts.len() == 0 {
        return String::new();
    }
    let mut out: String = parts[0].clone();
    let mut i: usize = 1;
    proof {
        assert(texts(parts@).take(1).len() == 1);
    }
    while i < parts.len()
        invariant
            1 <= i <= parts.len(),
            out@ == join(texts(parts@).take(i as int), sep@),
        decreases parts.len() - i,
    {
        proof {
            let next = texts(parts@).take(i + 1);
            assert(next.drop_last() =~= texts(parts@).take(i as int));
            assert(next.last() == parts@[i as int]@);
        }
        out.append(sep);
        out.append(parts[i].as_str());
        i += 1;
    }
    proof {
        assert(texts(parts@).take(parts@.len() as int) =~= texts(parts@));
    }
    out
}

pub proof fn lemma_join_push(parts: Seq<Seq<char>>, sep: Seq<char>, last: Seq<char>)
    requires
        parts.len() >= 1,
    ensures
        join(parts.push(last), sep) == join(parts, sep) + sep + last,
{
    assert(parts.push(last).drop_last() =~= parts);
}

/// Joining the pieces of a split with the separator gives the text back.
pub proof fn join_undoes_split(s: Seq<char>, sep: char)
    ensures
        join(split(s, sep), seq![sep]) == s,
    decreases s.len(),
{
    if s.len() == 0 {
        assert(split(s, sep).len() == 1);
        assert(s =~= Seq::<char>::empty());
    } else {
        let init = split(s.drop_last(), sep);
        join_undoes_split(s.drop_last(), sep);
        lemma_split_not_empty(s.drop_last(), sep);
        if s.last() == sep {
            lemma_join_push(init, seq![sep], Seq::<char>::empty());
            assert(s =~= s.drop_last() + seq![sep] + Seq::<char>::empty());
        } else {
            let grown = init.last().push(s.last());
            if init.len() == 1 {
                assert(init.drop_last() =~= Seq::<Seq<char>>::empty());
                assert(init.drop_last().push(grown).len() == 1);
                assert(join(init, seq![sep]) == init[0]);
                assert(s =~= s.drop_last().push(s.last()));
            } else {
                lemma_join_push(init.drop_last(), seq![sep], grown);
                assert(init =~= init.drop_last().push(init.last()));
                lemma_join_push(init.drop_last(), seq![sep], init.last());
                let head = join(init.drop_last(), seq![sep]) + seq![sep];
                assert(s.drop_last() == head + init.last());
                assert(s =~= s.drop_last().push(s.last()));
                assert(s =~= head + grown);
            }
        }
    }
}

/// No piece of a split holds the separator.
pub proof fn lemma_split_pieces_hold_no_separator(s: Seq<char>, sep: char)
    ensures
        forall|i: int|
            0 <= i < split(s, sep).len() ==> !(#[trigger] split(s, sep)[i]).contains(sep),
    decreases s.len(),
{
    if s.len() > 0 {
        let init = split(s.drop_last(), sep);
        lemma_split_not_empty(s.drop_last(), sep);
        lemma_split_pieces_hold_no_separator(s.drop_last(), sep);
        if s.last() != sep {
            let grown = init.last().push(s.last());
            assert(!init[init.len() - 1].contains(sep));
            assert forall|j: int| 0 <= j < grown.len() implies grown[j] != sep by {
                if j < grown.len() - 1 {
                    assert(grown[j] == init.last()[j]);
                }
            }
        }
    }
}

proof fn lemma_split_of_piece(s: Seq<char>, sep: char)
    requires
        !s.contains(sep),
    ensures
        split(s, sep) == seq![s],
    decreases s.len(),
{
    if s.len() > 0 {
        assert forall|j: int| 0 <= j < s.drop_last().len() implies s.drop_last()[j] != sep by {
            assert(s.contains(s[j]));
        }
        lemma_split_of_piece(s.drop_last(), sep);
        assert(s.contains(s.last()));
        assert(split(s, sep) =~= seq![s.drop_last().push(s.last())]);
        assert(s.drop_last().push(s.last()) =~= s);
    } else {
        assert(s =~= Seq::<char>::empty());
    }
}

proof fn lemma_split_after_separator(head: Seq<char>, piece: Seq<char>, sep: char)
    requires
        !piece.contains(sep),
    ensures
        split(head + seq![sep] + piece, sep) == split(head, sep).push(piece),
    decreases piece.len(),
{
    let s = head + seq![sep] + piece;
    if piece.len() == 0 {
        assert(s =~= head.push(sep));
        assert(s.drop_last() =~= head);
        assert(piece =~= Seq::<char>::empty());
    } else {
        assert forall|j: int| 0 <= j < piece.drop_last().len() implies piece.drop_last()[j]
            != sep by {
            assert(piece.contains(piece[j]));
        }
        lemma_split_after_separator(head, piece.drop_last(), sep);
        assert(s.drop_last() =~= head + seq![sep] + piece.drop_last());
        assert(piece.contains(piece.last()));
        assert(piece.drop_last().push(piece.last()) =~= piece);
        assert(split(head, sep).push(piece.drop_last()).drop_last() =~= split(head, sep));
    }
}

/// Splitting a join at the separator gives the parts back, where none of them
/// holds it.
pub proof fn split_undoes_join(parts: Seq<Seq<char>>, sep: char)
    requires
        parts.len() >= 1,
        forall|i: int| 0 <= i < parts.len() ==> !(#[trigger] parts[i]).contains(sep),
    ensures
        split(join(parts, seq![sep]), sep) == parts,
    decreases parts.len(),
{
    if parts.len() == 1 {
        lemma_split_of_piece(parts[0], sep);
        assert(parts =~= seq![parts[0]]);
    } else {
        assert forall|i: int| 0 <= i < parts.drop_last().len() implies !(
        #[trigger] parts.drop_last()[i]).contains(sep) by {
            assert(parts.drop_last()[i] == parts[i]);
        }
        split_undoes_join(parts.drop_last(), sep);
        lemma_split_after_separator(join(parts.drop_last(), seq![sep]), parts.last(), sep);
        assert(parts.drop_last().push(parts.last()) =~= parts);
    }
}

/// A join holds only what its parts and the separator hold.
pub proof fn lemma_join_holds_no(parts: Seq<Seq<char>>, sep: Seq<char>, c: char)
    requires
        forall|i: int| 0 <= i < parts.len() ==> !(#[trigger] parts[i]).contains(c),
        !sep.contains(c),
    ensures
        !join(parts, sep).contains(c),
    decreases parts.len(),
{
    if parts.len() > 1 {
        let init = parts.drop_last();
        assert forall|i: int| 0 <= i < init.len() implies !(#[trigger] init[i]).contains(c) by {
            assert(init[i] == parts[i]);
        }
        lemma_join_holds_no(init, sep, c);
        let head = join(init, sep);
        let all = head + sep + parts.last();
        if all.contains(c) {
            let k = choose|k: int| 0 <= k < all.len() && all[k] == c;
            if k < head.len() {
                assert(head.contains(head[k]));
            } else if k < head.len() + sep.len() {
                assert(sep.contains(sep[k - head.len()]));
            } else {
                assert(parts.last().contains(parts.last()[k - head.len() - sep.len()]));
                assert(!parts[parts.len() - 1].contains(c));
            }
        }
    }
}

// ---------------------------------------------------------------------------
// Characters in a text, words and lines
// ---------------------------------------------------------------------------

/// The first position from `i` on that holds `c`, or the length where none
/// does.
pub open spec fn index_from(s: Seq<char>, c: char, i: int) -> int
    decreases s.len() - i,
{
    if i >= s.len() {
        s.len() as int
    } else if s[i] == c {
        i
    } else {
        index_from(s, c, i + 1)
    }
}

/// The first position from `from` on that holds `c`, or the length.
pub fn find_char(v: &Vec<char>, c: char, from: usize) -> (r: usize)
    requires
        from <= v.len(),
    ensures
        r == index_from(v@, c, from as int),
        from <= r <= v.len(),
        r < v.len() ==> v@[r as int] == c,
{
    let mut i: usize = from;
    while i < v.len() && v[i] != c
        invariant
            from <= i <= v.len(),
            index_from(v@, c, i as int) == index_from(v@, c, from as int),
        decreases v.len() - i,
    {
        i += 1;
    }
    i
}

/// What comes before the first space.
pub open spec fn first_word(s: Seq<char>) -> Seq<char> {
    s.take(index_from(s, ' ', 0))
}

/// The runs of characters between white space.
pub open spec fn words(s: Seq<char>) -> Seq<Seq<char>>
    decreases s.len(),
{
    if s.len() == 0 {
        Seq::empty()
    } else {
        let init = words(s.drop_last());
        if is_white_space(s.last()) {
            init
        } else if s.len() == 1 || is_white_space(s[s.len() - 2]) {
            init.push(seq![s.last()])
        } else {
            init.drop_last().push(init.last().push(s.last()))
        }
    }
}

/// The runs of characters between white space.
pub fn words_of(v: &Vec<char>) -> (r: Vec<String>)
    ensures
        texts(r@) == words(v@),
{
    let mut out: Vec<String> = Vec::new();
    let mut current: String = String::new();
    let mut open: bool = false;
    let mut i: usize = 0;
    proof {
        assert(v@.take(0) =~= Seq::<char>::empty());
        assert(texts(out@) =~= Seq::<Seq<char>>::empty());
    }
    while i < v.len()
        invariant
            i <= v.len(),
            open == (i > 0 && !is_white_space(v@[i - 1])),
            open ==> texts(out@).push(current@) == words(v@.take(i as int)),
            !open ==> texts(out@) == words(v@.take(i as int)) && current@.len() == 0,
        decreases v.len() - i,
    {
        let c = v[i];
        let ghost before = texts(out@);
        let ghost seen = v@.take(i as int);
        proof {
            assert(v@.take(i + 1).drop_last() =~= seen);
            assert(v@.take(i + 1).last() == c);
            assert(before.push(current@).drop_last() =~= before);
        }
        if char_is_white_space(c) {
            if open {
                out.push(current);
                current = String::new();
                assert(texts(out@) =~= words(seen));
            }
            open = false;
        } else {
            let ghost text_before = current@;
            current.push(c);
            proof {
                if !open {
                    assert(current@ =~= seq![c]);
                }
            }
            open = true;
        }
        i += 1;
    }
    proof {
        assert(v@.take(v@.len() as int) =~= v@);
    }
    if open {
        let ghost before = texts(out@);
        let ghost last = current@;
        out.push(current);
        assert(texts(out@) =~= before.push(last));
    }
    out
}

/// A line without the carriage return at its end.
pub open spec fn chomped(line: Seq<char>) -> Seq<char> {
    if line.len() > 0 && line.last() == '\r' {
        line.drop_last()
    } else {
        line
    }
}

/// The lines of a text. A line ends with a line feed, or with a carriage
/// return and a line feed; what follows the last ending is a line where it is
/// not empty.
pub open spec fn lines(s: Seq<char>) -> Seq<Seq<char>> {
    let pieces = split(s, '\n');
    let ended = pieces.drop_last().map_values(|line: Seq<char>| chomped(line));
    if pieces.last().len() > 0 {
        ended.push(pieces.last())
    } else {
        ended
    }
}

fn chomp(line: &str) -> (r: String)
    ensures
        r@ == chomped(line@),
{
    let v = chars_of(line);
    let n = v.len();
    if n > 0 && v[n - 1] == '\r' {
        let r = text_between(&v, 0, n - 1);
        assert(r@ =~= line@.drop_last());
        r
    } else {
        line.to_owned()
    }
}

/// The lines of a text.
pub fn lines_of(s: &str) -> (r: Vec<String>)
    ensures
        texts(r@) == lines(s@),
{
    let pieces = split_text(s, '\n');
    let ghost parts = split(s@, '\n');
    let ghost ended = parts.drop_last().map_values(|line: Seq<char>| chomped(line));
    let mut out: Vec<String> = Vec::new();
    let last: usize = pieces.len() - 1;
    let mut i: usize = 0;
    proof {
        assert(texts(out@) =~= ended.take(0));
    }
    while i < last
        invariant
            i <= last,
            last == pieces.len() - 1,
            texts(pieces@) == parts,
            ended == parts.drop_last().map_values(|line: Seq<char>| chomped(line)),
            texts(out@) == ended.take(i as int),
        decreases last - i,
    {
        let line = chomp(pieces[i].as_str());
        let ghost before = texts(out@);
        let ghost shown = line@;
        proof {
            assert(parts[i as int] == pieces@[i as int]@);
            assert(ended.take(i + 1) =~= ended.take(i as int).push(ended[i as int]));
        }
        out.push(line);
        assert(texts(out@) =~= before.push(shown));
        i += 1;
    }
    proof {
        assert(ended.take(ended.len() as int) =~= ended);
        assert(parts.last() == pieces@[last as int]@);
    }
    if !pieces[last].as_str().is_empty() {
        let ghost before = texts(out@);
        out.push(pieces[last].clone());
        assert(texts(out@) =~= before.push(pieces@[last as int]@));
    }
    out
}

/// Whether a text is among others.
pub fn is_among(all: &Vec<String>, s: &str) -> (r: bool)
    ensures
        r == texts(all@).contains(s@),
{
    let ghost known = texts(all@);
    let mut i: usize = 0;
    while i < all.len()
        invariant
            i <= all.len(),
            known == texts(all@),
            forall|j: int| 0 <= j < i ==> #[trigger] known[j] != s@,
        decreases all.len() - i,
    {
        assert(known[i as int] == all@[i as int]@);
        if same(all[i].as_str(), s) {
            assert(known.contains(known[i as int]));
            return true;
        }
        i += 1;
    }
    false
}

// ---------------------------------------------------------------------------
// Trimming
// ---------------------------------------------------------------------------

/// The text without the white space at its start.
pub open spec fn trim_start(s: Seq<char>) -> Seq<char>
    decreases s.len(),
{
    if s.len() > 0 && is_white_space(s[0]) {
        trim_start(s.skip(1))
    } else {
        s
    }
}

/// The text without the white space at its end.
pub open spec fn trim_end(s: Seq<char>) -> Seq<char>
    decreases s.len(),
{
    if s.len() > 0 && is_white_space(s.last()) {
        trim_end(s.drop_last())
    } else {
        s
    }
}

/// The text without the white space at either end.
pub open spec fn trimmed(s: Seq<char>) -> Seq<char> {
    trim_end(trim_start(s))
}

/// The text without the copies of `c` at its end.
pub open spec fn trim_end_of(s: Seq<char>, c: char) -> Seq<char>
    decreases s.len(),
{
    if s.len() > 0 && s.last() == c {
        trim_end_of(s.drop_last(), c)
    } else {
        s
    }
}

pub fn trim(s: &str) -> (r: String)
    ensures
        r@ == trimmed(s@),
{
    let v = chars_of(s);
    let mut from: usize = 0;
    proof {
        assert(s@.skip(0) =~= s@);
    }
    while from < v.len() && char_is_white_space(v[from])
        invariant
            v@ == s@,
            from <= v.len(),
            trim_start(s@.skip(from as int)) == trim_start(s@),
        decreases v.len() - from,
    {
        proof {
            assert(s@.skip(from as int).skip(1) =~= s@.skip(from + 1));
        }
        from += 1;
    }
    let mut to: usize = v.len();
    proof {
        assert(s@.skip(from as int) == trim_start(s@));
        assert(s@.subrange(from as int, to as int) =~= s@.skip(from as int));
    }
    while from < to && char_is_white_space(v[to - 1])
        invariant
            v@ == s@,
            from <= to <= v.len(),
            trim_end(s@.subrange(from as int, to as int)) == trimmed(s@),
        decreases to - from,
    {
        proof {
            assert(s@.subrange(from as int, to as int).drop_last() =~= s@.subrange(
                from as int,
                to - 1,
            ));
        }
        to -= 1;
    }
    text_between(&v, from, to)
}

/// The text without the copies of `c` at its end.
pub fn trim_end_char(s: &str, c: char) -> (r: String)
    ensures
        r@ == trim_end_of(s@, c),
{
    let v = chars_of(s);
    let mut to: usize = v.len();
    proof {
        assert(s@.take(to as int) =~= s@);
    }
    while 0 < to && v[to - 1] == c
        invariant
            v@ == s@,
            to <= v.len(),
            trim_end_of(s@.take(to as int), c) == trim_end_of(s@, c),
        decreases to,
    {
        proof {
            assert(s@.take(to as int).drop_last() =~= s@.take(to - 1));
        }
        to -= 1;
    }
    proof {
        assert(s@.take(to as int) =~= s@.subrange(0, to as int));
    }
    text_between(&v, 0, to)
}

// ---------------------------------------------------------------------------
// Numbers
// ---------------------------------------------------------------------------

pub open spec fn digit_char(d: int) -> char {
    (48 + d) as char
}

/// The decimal digits of a natural number.
pub open spec fn decimal(n: nat) -> Seq<char>
    decreases n,
{
    if n < 10 {
        seq![digit_char(n as int)]
    } else {
        decimal(n / 10).push(digit_char((n % 10) as int))
    }
}

/// A whole number in decimal, with a minus sign in front when negative.
pub open spec fn decimal_int(n: int) -> Seq<char> {
    if n < 0 {
        seq!['-'] + decimal((-n) as nat)
    } else {
        decimal(n as nat)
    }
}

fn digit(d: u64) -> (c: char)
    requires
        d < 10,
    ensures
        c == digit_char(d as int),
{
    (48u8 + d as u8) as char
}

pub fn u64_text(n: u64) -> (r: String)
    ensures
        r@ == decimal(n as nat),
    decreases n,
{
    let mut r: String = if n < 10 {
        String::new()
    } else {
        u64_text(n / 10)
    };
    r.push(digit(n % 10));
    r
}

pub fn usize_text(n: usize) -> (r: String)
    ensures
        r@ == decimal(n as nat),
{
    u64_text(n as u64)
}

pub fn i64_text(n: i64) -> (r: String)
    ensures
        r@ == decimal_int(n as int),
{
    if n >= 0 {
        u64_text(n as u64)
    } else {
        let mut r: String = String::new();
        r.push('-');
        let magnitude: u64 = if n == i64::MIN {
            9223372036854775808
        } else {
            (-n) as u64
        };
        let digits = u64_text(magnitude);
        r.append(digits.as_str());
        proof {
            assert(r@ =~= decimal_int(n as int));
        }
        r
    }
}

/// The number that a sequence of decimal digits stands for.
pub open spec fn digits_value(s: Seq<char>) -> nat
    decreases s.len(),
{
    if s.len() == 0 {
        0
    } else {
        digits_value(s.drop_last()) * 10 + (s.last() as nat - 48) as nat
    }
}

/// The digits of an unsigned number as it is written: an optional plus sign
/// and then digits.
pub open spec fn number_digits(s: Seq<char>) -> Seq<char> {
    if s.len() > 0 && s[0] == '+' {
        s.skip(1)
    } else {
        s
    }
}

/// The unsigned number that a text stands for, up to `max`.
pub open spec fn parsed_number(s: Seq<char>, max: nat) -> Option<nat> {
    let digits = number_digits(s);
    if digits.len() > 0 && all_chars(digits, |c: char| is_digit(c)) && digits_value(digits) <= max {
        Some(digits_value(digits))
    } else {
        None
    }
}

pub proof fn lemma_digits_value_prefix(s: Seq<char>, i: int)
    requires
        0 <= i <= s.len(),
        all_chars(s, |c: char| is_digit(c)),
    ensures
        digits_value(s.take(i)) <= digits_value(s),
    decreases s.len() - i,
{
    if i < s.len() {
        lemma_digits_value_prefix(s, i + 1);
        assert(s.take(i + 1).drop_last() =~= s.take(i));
        assert(is_digit(s[i]));
    } else {
        assert(s.take(i) =~= s);
    }
}

/// Reads an unsigned number written in decimal.
pub fn parse_usize(s: &str) -> (r: Option<usize>)
    ensures
        r matches Some(n) ==> parsed_number(s@, usize::MAX as nat) == Some(n as nat),
        r is None ==> parsed_number(s@, usize::MAX as nat) is None,
{
    let v = chars_of(s);
    let from: usize = if v.len() > 0 && v[0] == '+' {
        1
    } else {
        0
    };
    let ghost digits = number_digits(s@);
    proof {
        assert(digits =~= s@.skip(from as int));
    }
    if from == v.len() {
        return None;
    }
    let mut value: usize = 0;
    let mut i: usize = from;
    proof {
        assert(digits.take(0) =~= Seq::<char>::empty());
    }
    while i < v.len()
        invariant
            v@ == s@,
            from <= i <= v.len(),
            digits == number_digits(s@),
            digits == s@.skip(from as int),
            value == digits_value(digits.take(i - from)),
            forall|j: int| 0 <= j < i - from ==> is_digit(#[trigger] digits[j]),
        decreases v.len() - i,
    {
        let c = v[i];
        proof {
            assert(digits[i - from] == c);
            assert(digits.take(i - from + 1).drop_last() =~= digits.take(i - from));
        }
        if !char_is_digit(c) {
            return None;
        }
        let d: usize = (c as u32 - 48) as usize;
        proof {
            if all_chars(digits, |c: char| is_digit(c)) {
                lemma_digits_value_prefix(digits, i - from + 1);
            }
        }
        match value.checked_mul(10) {
            None => {
                return None;
            },
            Some(tens) => match tens.checked_add(d) {
                None => {
                    return None;
                },
                Some(next) => {
                    value = next;
                },
            },
        }
        i += 1;
    }
    proof {
        assert(digits.take(digits.len() as int) =~= digits);
    }
    Some(value)
}

pub proof fn lemma_decimal_is_digits(n: nat)
    ensures
        decimal(n).len() > 0,
        all_chars(decimal(n), |c: char| is_digit(c)),
    decreases n,
{
    if n >= 10 {
        lemma_decimal_is_digits(n / 10);
    }
}

/// Reading the decimal digits of a number gives the number.
pub proof fn parse_reads_decimal(n: nat, max: nat)
    requires
        n <= max,
    ensures
        digits_value(decimal(n)) == n,
        parsed_number(decimal(n), max) == Some(n),
    decreases n,
{
    lemma_decimal_is_digits(n);
    let s = decimal(n);
    if n < 10 {
        assert(s.drop_last() =~= Seq::<char>::empty());
        assert(digits_value(s.drop_last()) == 0);
    } else {
        parse_reads_decimal(n / 10, max);
        assert(s.drop_last() =~= decimal(n / 10));
    }
    assert(is_digit(s[0]));
    assert(number_digits(s) == s);
}

/// Two numbers with the same decimal digits are the same number.
pub proof fn decimal_is_injective(a: nat, b: nat)
    ensures
        decimal(a) == decimal(b) ==> a == b,
{
    parse_reads_decimal(a, a);
    parse_reads_decimal(b, b);
}

// ---------------------------------------------------------------------------
// Letter case and order
// ---------------------------------------------------------------------------

/// The two texts differ at most in the case of ASCII letters.
pub open spec fn equal_ignoring_ascii_case(a: Seq<char>, b: Seq<char>) -> bool {
    a.len() == b.len() && forall|i: int|
        0 <= i < a.len() ==> ascii_lower(#[trigger] a[i]) == ascii_lower(b[i])
}

fn char_ascii_lower(c: char) -> (r: char)
    ensures
        r == ascii_lower(c),
{
    if 'A' <= c && c <= 'Z' {
        (c as u8 + 32) as char
    } else {
        c
    }
}

pub fn same_ignoring_ascii_case(a: &str, b: &str) -> (r: bool)
    ensures
        r == equal_ignoring_ascii_case(a@, b@),
{
    let v = chars_of(a);
    let w = chars_of(b);
    if v.len() != w.len() {
        return false;
    }
    let mut i: usize = 0;
    while i < v.len()
        invariant
            v@ == a@,
            w@ == b@,
            v.len() == w.len(),
            i <= v.len(),
            forall|j: int| 0 <= j < i ==> ascii_lower(#[trigger] a@[j]) == ascii_lower(b@[j]),
        decreases v.len() - i,
    {
        if char_ascii_lower(v[i]) != char_ascii_lower(w[i]) {
            assert(ascii_lower(a@[i as int]) != ascii_lower(b@[i as int]));
            return false;
        }
        i += 1;
    }
    true
}

/// Dictionary order by code point: `a` comes no later than `b`.
pub open spec fn no_later(a: Seq<char>, b: Seq<char>) -> bool
    decreases a.len(),
{
    if a.len() == 0 {
        true
    } else if b.len() == 0 {
        false
    } else if a[0] == b[0] {
        no_later(a.skip(1), b.skip(1))
    } else {
        a[0] < b[0]
    }
}

/// Whether `a` comes no later than `b` in dictionary order.
pub fn text_no_later(a: &str, b: &str) -> (r: bool)
    ensures
        r == no_later(a@, b@),
{
    let v = chars_of(a);
    let w = chars_of(b);
    let mut i: usize = 0;
    proof {
        assert(a@.skip(0) =~= a@);
        assert(b@.skip(0) =~= b@);
    }
    while i < v.len() && i < w.len() && v[i] == w[i]
        invariant
            v@ == a@,
            w@ == b@,
            i <= v.len(),
            i <= w.len(),
            no_later(a@.skip(i as int), b@.skip(i as int)) == no_later(a@, b@),
        decreases v.len() - i,
    {
        proof {
            assert(a@.skip(i as int).skip(1) =~= a@.skip(i + 1));
            assert(b@.skip(i as int).skip(1) =~= b@.skip(i + 1));
        }
        i += 1;
    }
    if i == v.len() {
        true
    } else if i == w.len() {
        false
    } else {
        v[i] < w[i]
    }
}

pub proof fn lemma_no_later_total(a: Seq<char>, b: Seq<char>)
    ensures
        no_later(a, b) || no_later(b, a),
    decreases a.len(),
{
    if a.len() > 0 && b.len() > 0 && a[0] == b[0] {
        lemma_no_later_total(a.skip(1), b.skip(1));
    }
}

pub proof fn lemma_no_later_transitive(a: Seq<char>, b: Seq<char>, c: Seq<char>)
    requires
        no_later(a, b),
        no_later(b, c),
    ensures
        no_later(a, c),
    decreases a.len(),
{
    if a.len() > 0 && b.len() > 0 && c.len() > 0 && a[0] == b[0] && b[0] == c[0] {
        lemma_no_later_transitive(a.skip(1), b.skip(1), c.skip(1));
    }
}

/// The text in lower case, as Unicode maps it.
pub uninterp spec fn lowercase(s: Seq<char>) -> Seq<char>;

/// `str::to_lowercase`: the text in lower case. The mapping is a function of
/// the text alone. Of a text of ASCII characters it changes the capital
/// letters only; nothing is claimed of other texts.
#[verifier::external_body]
pub(crate) fn to_lowercase(s: &str) -> (r: String)
    ensures
        r@ == lowercase(s@),
        all_chars(s@, |c: char| c as u32 <= 127) ==> r@ == s@.map_values(|c: char| ascii_lower(c)),
{
    s.to_lowercase()
}

// ---------------------------------------------------------------------------
// Named values
// ---------------------------------------------------------------------------

/// The value under a name: that of the first entry with it.
pub open spec fn lookup<V>(entries: Seq<(Seq<char>, V)>, name: Seq<char>) -> Option<V>
    decreases entries.len(),
{
    if entries.len() == 0 {
        None
    } else if entries[0].0 == name {
        Some(entries[0].1)
    } else {
        lookup(entries.skip(1), name)
    }
}

pub proof fn lemma_lookup_skip<V>(entries: Seq<(Seq<char>, V)>, name: Seq<char>, i: int)
    requires
        0 <= i < entries.len(),
    ensures
        lookup(entries.skip(i), name) == if entries[i].0 == name {
            Some(entries[i].1)
        } else {
            lookup(entries.skip(i + 1), name)
        },
{
    assert(entries.skip(i).skip(1) =~= entries.skip(i + 1));
    assert(entries.skip(i)[0] == entries[i]);
}

/// A value found under a name is that of an entry with the name.
pub proof fn lemma_lookup_finds<V>(entries: Seq<(Seq<char>, V)>, name: Seq<char>)
    ensures
        lookup(entries, name) matches Some(v) ==> exists|i: int|
            0 <= i < entries.len() && #[trigger] entries[i] == (name, v),
        lookup(entries, name) is None <==> forall|i: int|
            0 <= i < entries.len() ==> (#[trigger] entries[i]).0 != name,
    decreases entries.len(),
{
    if entries.len() > 0 {
        let rest = entries.skip(1);
        lemma_lookup_finds(rest, name);
        if entries[0].0 == name {
            assert(entries[0] == (name, entries[0].1));
        } else {
            if let Some(v) = lookup(rest, name) {
                let i = choose|i: int| 0 <= i < rest.len() && #[trigger] rest[i] == (name, v);
                assert(entries[i + 1] == (name, v));
            } else {
                assert forall|i: int| 0 <= i < entries.len() implies (
                #[trigger] entries[i]).0 != name by {
                    if i > 0 {
                        assert(rest[i - 1] == entries[i]);
                    }
                }
            }
        }
    }
}

} // verus!
