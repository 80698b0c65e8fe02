//! The shapes that keys, names, paths and hosts must have.

use crate::text;
use vstd::prelude::*;

verus! {

/// One to 64 hexadecimal digits and hyphens: the only ids Chromium hands out.
pub open spec fn is_target_id(id: Seq<char>) -> bool {
    1 <= id.len() <= 64 && text::all_chars(id, |c: char| text::is_hex_digit(c) || c == '-')
}

/// 64 hexadecimal digits.
pub open spec fn is_key(key: Seq<char>) -> bool {
    key.len() == 64 && text::all_chars(key, |c: char| text::is_hex_digit(c))
}

/// 32 hexadecimal digits.
pub open spec fn is_link_id(id: Seq<char>) -> bool {
    id.len() == 32 && text::all_chars(id, |c: char| text::is_hex_digit(c))
}

/// Whether a target id has the shape of Chromium's own.
pub fn valid_target_id(id: &str) -> (r: bool)
    ensures
        r == is_target_id(id@),
{
    let v = text::chars_of(id);
    if v.len() == 0 || v.len() > 64 {
        return false;
    }
    let mut i: usize = 0;
    while i < v.len()
        invariant
            v@ == id@,
            i <= v.len(),
            forall|j: int| 0 <= j < i ==> text::is_hex_digit(#[trigger] id@[j]) || id@[j] == '-',
        decreases v.len() - i,
    {
        if !text::char_is_hex_digit(v[i]) && v[i] != '-' {
            let ghost ok = |c: char| text::is_hex_digit(c) || c == '-';
            assert(!ok(id@[i as int]));
            return false;
        }
        i += 1;
    }
    true
}

/// Whether a text is `n` hexadecimal digits.
fn is_hex_of_length(s: &str, n: usize) -> (r: bool)
    ensures
        r == (s@.len() == n && text::all_chars(s@, |c: char| text::is_hex_digit(c))),
{
    let v = text::chars_of(s);
    if v.len() != n {
        return false;
    }
    let mut i: usize = 0;
    while i < v.len()
        invariant
            v@ == s@,
            i <= v.len(),
            forall|j: int| 0 <= j < i ==> text::is_hex_digit(#[trigger] s@[j]),
        decreases v.len() - i,
    {
        if !text::char_is_hex_digit(v[i]) {
            let ghost ok = |c: char| text::is_hex_digit(c);
            assert(!ok(s@[i as int]));
            return false;
        }
        i += 1;
    }
    true
}

/// Whether a text has the shape of a link's key.
pub fn valid_key(key: &str) -> (r: bool)
    ensures
        r == is_key(key@),
{
    is_hex_of_length(key, 64)
}

/// Whether a text has the shape of a link's name.
pub fn valid_link_id(id: &str) -> (r: bool)
    ensures
        r == is_link_id(id@),
{
    is_hex_of_length(id, 32)
}

// ---------------------------------------------------------------------------
// Paths
// ---------------------------------------------------------------------------

/// What replaces a key wherever a path is written down.
pub const REDACTED: &'static str = "<redacted>";

/// One path segment as it may be written down.
pub open spec fn redacted_segment(segment: Seq<char>) -> Seq<char> {
    if is_key(segment) {
        REDACTED@
    } else {
        segment
    }
}

/// The path with every segment of a key's shape replaced.
pub open spec fn redacted_path(path: Seq<char>) -> Seq<char> {
    text::join(
        text::split(path, '/').map_values(|segment: Seq<char>| redacted_segment(segment)),
        seq!['/'],
    )
}

/// Takes any key out of a request path before it is logged.
pub fn redact_path(path: &str) -> (r: String)
    ensures
        r@ == redacted_path(path@),
{
    let segments = text::split_text(path, '/');
    let mut out: Vec<String> = Vec::new();
    let ghost parts = text::split(path@, '/');
    let ghost shown = parts.map_values(|segment: Seq<char>| redacted_segment(segment));
    let mut i: usize = 0;
    while i < segments.len()
        invariant
            i <= segments.len(),
            text::texts(segments@) == parts,
            shown == parts.map_values(|segment: Seq<char>| redacted_segment(segment)),
            text::texts(out@) == shown.take(i as int),
        decreases segments.len() - i,
    {
        let segment = segments[i].as_str();
        proof {
            assert(segment@ == parts[i as int]);
        }
        let next: String = if valid_key(segment) {
            REDACTED.to_owned()
        } else {
            segment.to_owned()
        };
        let ghost before = out@;
        out.push(next);
        proof {
            assert(text::texts(out@) =~= text::texts(before).push(next@));
            assert(shown.take(i + 1) =~= shown.take(i as int).push(shown[i as int]));
        }
        i += 1;
    }
    proof {
        assert(shown.take(shown.len() as int) =~= shown);
        reveal_strlit("/");
        assert("/"@ =~= seq!['/']);
    }
    text::join_texts(&out, "/")
}

/// A path without a key-shaped segment is left exactly as it was.
pub proof fn path_without_key_is_kept(path: Seq<char>)
    requires
        forall|i: int|
            0 <= i < text::split(path, '/').len() ==> !is_key(#[trigger] text::split(path, '/')[i]),
    ensures
        redacted_path(path) == path,
{
    let parts = text::split(path, '/');
    assert(parts.map_values(|segment: Seq<char>| redacted_segment(segment)) =~= parts);
    text::join_undoes_split(path, '/');
}

/// No segment of a redacted path has a key's shape.
pub proof fn redacted_path_holds_no_key(path: Seq<char>)
    ensures
        forall|i: int|
            0 <= i < text::split(redacted_path(path), '/').len() ==> !is_key(
                #[trigger] text::split(redacted_path(path), '/')[i],
            ),
{
    let parts = text::split(path, '/');
    let shown = parts.map_values(|segment: Seq<char>| redacted_segment(segment));
    text::lemma_split_not_empty(path, '/');
    text::lemma_split_pieces_hold_no_separator(path, '/');
    assert forall|i: int| 0 <= i < shown.len() implies !(#[trigger] shown[i]).contains('/') by {
        reveal_strlit("<redacted>");
        assert(!parts[i].contains('/'));
    }
    text::split_undoes_join(shown, '/');
    assert forall|i: int| 0 <= i < shown.len() implies !is_key(#[trigger] shown[i]) by {
        reveal_strlit("<redacted>");
    }
}

pub open spec fn is_asset_char(c: char) -> bool {
    text::is_alphanumeric(c) || c == '/' || c == '.' || c == '_' || c == '-' || c == '@'
}

/// A path inside the DevTools application: relative, without a parent
/// segment, at most 512 characters, and of harmless characters only.
pub open spec fn is_asset_path(path: Seq<char>) -> bool {
    &&& 1 <= path.len() <= 512
    &&& path[0] != '/'
    &&& !text::split(path, '/').contains(".."@)
    &&& text::all_chars(path, |c: char| is_asset_char(c))
}

/// Whether a path stays inside the DevTools application.
pub fn safe_asset_path(path: &str) -> (r: bool)
    ensures
        r == is_asset_path(path@),
{
    let v = text::chars_of(path);
    if v.len() == 0 || v.len() > 512 || v[0] == '/' {
        return false;
    }
    let segments = text::split_text(path, '/');
    let ghost parts = text::split(path@, '/');
    let mut k: usize = 0;
    while k < segments.len()
        invariant
            k <= segments.len(),
            parts == text::split(path@, '/'),
            text::texts(segments@) == parts,
            forall|j: int| 0 <= j < k ==> #[trigger] parts[j] != ".."@,
        decreases segments.len() - k,
    {
        if text::same(segments[k].as_str(), "..") {
            assert(parts.contains(parts[k as int]));
            return false;
        }
        assert(parts[k as int] == segments@[k as int]@);
        k += 1;
    }
    let mut i: usize = 0;
    while i < v.len()
        invariant
            v@ == path@,
            i <= v.len(),
            forall|j: int| 0 <= j < i ==> is_asset_char(#[trigger] path@[j]),
        decreases v.len() - i,
    {
        let c = v[i];
        if !(text::char_is_alphanumeric(c) || c == '/' || c == '.' || c == '_' || c == '-' || c
            == '@') {
            let ghost ok = |c: char| is_asset_char(c);
            assert(!ok(path@[i as int]));
            return false;
        }
        i += 1;
    }
    true
}

// ---------------------------------------------------------------------------
// Hosts
// ---------------------------------------------------------------------------

/// The last position of a character.
pub open spec fn last_position(s: Seq<char>, c: char) -> Option<int>
    decreases s.len(),
{
    if s.len() == 0 {
        None
    } else if s.last() == c {
        Some(s.len() - 1)
    } else {
        last_position(s.drop_last(), c)
    }
}

/// The name and the port of a `host[:port]`. The colons of a bracketed
/// address are not in front of a port.
pub open spec fn host_and_port(host: Seq<char>) -> (Seq<char>, Option<Seq<char>>) {
    match last_position(host, ':') {
        Some(i) => if host.skip(i).contains(']') {
            (host, None)
        } else {
            (host.take(i), Some(host.skip(i + 1)))
        },
        None => (host, None),
    }
}

/// One to five decimal digits.
pub open spec fn is_port(port: Seq<char>) -> bool {
    1 <= port.len() <= 5 && text::all_chars(port, |c: char| text::is_digit(c))
}

/// A bracketed address: hexadecimal digits, colons and dots.
pub open spec fn is_bracketed(name: Seq<char>) -> bool {
    name.len() >= 2 && name[0] == '[' && name.last() == ']'
}

pub open spec fn is_address_char(c: char) -> bool {
    text::is_hex_digit(c) || c == ':' || c == '.'
}

pub open spec fn is_host_char(c: char) -> bool {
    text::is_alphanumeric(c) || c == '.' || c == '-' || c == '_'
}

pub open spec fn is_host_name(name: Seq<char>) -> bool {
    if is_bracketed(name) {
        name.len() > 2 && text::all_chars(
            name.subrange(1, name.len() - 1),
            |c: char| is_address_char(c),
        )
    } else {
        name.len() > 0 && name[0] != '.' && text::all_chars(name, |c: char| is_host_char(c))
    }
}

/// A bare `host` or `host:port` of at most 255 characters.
pub open spec fn is_host(host: Seq<char>) -> bool {
    let (name, port) = host_and_port(host);
    &&& 1 <= host.len() <= 255
    &&& (port matches Some(p) ==> is_port(p))
    &&& is_host_name(name)
}

/// The last position of a character.
fn find_last(v: &Vec<char>, c: char) -> (r: Option<usize>)
    ensures
        r matches Some(i) ==> last_position(v@, c) == Some(i as int) && i < v.len(),
        r is None ==> last_position(v@, c) is None,
{
    let mut n: usize = v.len();
    proof {
        assert(v@.take(n as int) =~= v@);
    }
    while n > 0
        invariant
            n <= v.len(),
            last_position(v@.take(n as int), c) == last_position(v@, c),
        decreases n,
    {
        if v[n - 1] == c {
            return Some(n - 1);
        }
        proof {
            assert(v@.take(n as int).drop_last() =~= v@.take(n - 1));
        }
        n -= 1;
    }
    None
}

fn holds_char(v: &Vec<char>, from: usize, c: char) -> (r: bool)
    requires
        from <= v.len(),
    ensures
        r == v@.skip(from as int).contains(c),
{
    let mut i: usize = from;
    let ghost rest = v@.skip(from as int);
    while i < v.len()
        invariant
            from <= i <= v.len(),
            rest == v@.skip(from as int),
            forall|j: int| 0 <= j < i - from ==> #[trigger] rest[j] != c,
        decreases v.len() - i,
    {
        if v[i] == c {
            assert(rest[i - from] == c);
            return true;
        }
        assert(rest[i - from] == v@[i as int]);
        i += 1;
    }
    false
}

/// Whether the characters `v[from..to]` are all address characters.
fn only_address_chars(v: &Vec<char>, from: usize, to: usize) -> (r: bool)
    requires
        from <= to <= v.len(),
    ensures
        r == text::all_chars(v@.subrange(from as int, to as int), |c: char| is_address_char(c)),
{
    let ghost part = v@.subrange(from as int, to as int);
    let ghost ok = |c: char| is_address_char(c);
    let mut i: usize = from;
    while i < to
        invariant
            from <= i <= to <= v.len(),
            part == v@.subrange(from as int, to as int),
            ok == (|c: char| is_address_char(c)),
            forall|j: int| 0 <= j < i - from ==> ok(#[trigger] part[j]),
        decreases to - i,
    {
        let c = v[i];
        proof {
            assert(part[i - from] == c);
        }
        if !(text::char_is_hex_digit(c) || c == ':' || c == '.') {
            assert(!ok(part[i - from]));
            return false;
        }
        i += 1;
    }
    true
}

fn only_host_chars(v: &Vec<char>, to: usize) -> (r: bool)
    requires
        to <= v.len(),
    ensures
        r == text::all_chars(v@.take(to as int), |c: char| is_host_char(c)),
{
    let ghost part = v@.take(to as int);
    let ghost ok = |c: char| is_host_char(c);
    let mut i: usize = 0;
    while i < to
        invariant
            i <= to <= v.len(),
            part == v@.take(to as int),
            ok == (|c: char| is_host_char(c)),
            forall|j: int| 0 <= j < i ==> ok(#[trigger] part[j]),
        decreases to - i,
    {
        let c = v[i];
        proof {
            assert(part[i as int] == c);
        }
        if !(text::char_is_alphanumeric(c) || c == '.' || c == '-' || c == '_') {
            assert(!ok(part[i as int]));
            return false;
        }
        i += 1;
    }
    true
}

fn only_digits(v: &Vec<char>, from: usize) -> (r: bool)
    requires
        from <= v.len(),
    ensures
        r == text::all_chars(v@.skip(from as int), |c: char| text::is_digit(c)),
{
    let ghost part = v@.skip(from as int);
    let ghost ok = |c: char| text::is_digit(c);
    let mut i: usize = from;
    while i < v.len()
        invariant
            from <= i <= v.len(),
            part == v@.skip(from as int),
            ok == (|c: char| text::is_digit(c)),
            forall|j: int| 0 <= j < i - from ==> ok(#[trigger] part[j]),
        decreases v.len() - i,
    {
        proof {
            assert(part[i - from] == v@[i as int]);
        }
        if !text::char_is_digit(v[i]) {
            assert(!ok(part[i - from]));
            return false;
        }
        i += 1;
    }
    true
}

/// Whether a header value is a bare `host` or `host:port` and nothing else.
pub fn valid_host(host: &str) -> (r: bool)
    ensures
        r == is_host(host@),
{
    let v = text::chars_of(host);
    if v.len() == 0 || v.len() > 255 {
        return false;
    }
    let end: usize = match find_last(&v, ':') {
        Some(i) => {
            if holds_char(&v, i, ']') {
                v.len()
            } else {
                let port_len: usize = v.len() - i - 1;
                if port_len == 0 || port_len > 5 || !only_digits(&v, i + 1) {
                    return false;
                }
                i
            }
        },
        None => v.len(),
    };
    let ghost name = host_and_port(host@).0;
    proof {
        assert(name =~= v@.take(end as int));
    }
    if end >= 2 && v[0] == '[' && v[end - 1] == ']' {
        proof {
            assert(is_bracketed(name));
            assert(name.subrange(1, name.len() - 1) =~= v@.subrange(1, end - 1));
        }
        return end > 2 && only_address_chars(&v, 1, end - 1);
    }
    end > 0 && v[0] != '.' && only_host_chars(&v, end)
}

/// An accepted host holds nothing that could be read as query syntax, a path
/// or credentials.
pub proof fn accepted_host_is_bare(host: Seq<char>)
    requires
        is_host(host),
    ensures
        forall|i: int|
            #![trigger host[i]]
            0 <= i < host.len() ==> is_host_char(host[i]) || host[i] == ':' || host[i] == '['
                || host[i] == ']',
{
    let (name, port) = host_and_port(host);
    lemma_last_position(host, ':');
    assert forall|i: int| #![trigger host[i]] 0 <= i < host.len() implies is_host_char(host[i])
        || host[i] == ':' || host[i] == '[' || host[i] == ']' by {
        if i < name.len() {
            assert(name[i] == host[i]);
            if is_bracketed(name) {
                let inner = name.subrange(1, name.len() - 1);
                if 0 < i < name.len() - 1 {
                    assert(inner[i - 1] == host[i]);
                    let ok = |c: char| is_address_char(c);
                    assert(ok(inner[i - 1]));
                }
            } else {
                let ok = |c: char| is_host_char(c);
                assert(ok(name[i]));
            }
        } else if i > name.len() {
            let digits = port->0;
            assert(digits[i - name.len() - 1] == host[i]);
            let ok = |c: char| text::is_digit(c);
            assert(ok(digits[i - name.len() - 1]));
        }
    }
}

proof fn lemma_last_position(s: Seq<char>, c: char)
    ensures
        last_position(s, c) matches Some(i) ==> 0 <= i < s.len() && s[i] == c,
    decreases s.len(),
{
    if s.len() > 0 && s.last() != c {
        lemma_last_position(s.drop_last(), c);
    }
}

} // verus!
