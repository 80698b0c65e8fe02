//! Listing the media files that players can be given.

use crate::http::{reply, Reply, ReplyInfo};
use crate::sequences;
use crate::text;
use vstd::prelude::*;

verus! {

/// What a listing is asked for.
pub struct ListMediaQuery {
    pub path: Option<String>,
}

/// One file or directory of a listing.
pub struct MediaEntry {
    pub name: String,
    /// The path from the media root.
    pub path: String,
    pub is_dir: bool,
    /// The size of a file in bytes; a directory has none.
    pub size: u64,
}

/// What an entry of a listing is.
pub struct EntryInfo {
    pub name: Seq<char>,
    pub path: Seq<char>,
    pub is_dir: bool,
    pub size: u64,
}

impl View for MediaEntry {
    type V = EntryInfo;

    open spec fn view(&self) -> EntryInfo {
        EntryInfo { name: self.name@, path: self.path@, is_dir: self.is_dir, size: self.size }
    }
}

/// A directory of the media root and what is in it.
pub struct ListMediaResponse {
    pub current_path: String,
    pub parent_path: Option<String>,
    pub entries: Vec<MediaEntry>,
}

pub open spec fn entry_infos(v: Seq<MediaEntry>) -> Seq<EntryInfo> {
    v.map_values(|e: MediaEntry| e@)
}

// ---------------------------------------------------------------------------
// Paths
// ---------------------------------------------------------------------------

/// The path with forward slashes only.
pub open spec fn with_forward_slashes(path: Seq<char>) -> Seq<char> {
    path.map_values(
        |c: char|
            if c == '\\' {
                '/'
            } else {
                c
            },
    )
}

/// A path segment that names something inside its directory.
pub open spec fn is_plain_segment(segment: Seq<char>) -> bool {
    segment.len() > 0 && segment != "."@ && segment != ".."@
}

pub open spec fn plain_segments(path: Seq<char>) -> Seq<Seq<char>> {
    text::split(with_forward_slashes(path), '/').filter(|s: Seq<char>| is_plain_segment(s))
}

/// A path that cannot lead out of the directory it starts from.
pub open spec fn sanitized(path: Seq<char>) -> Seq<char> {
    text::join(plain_segments(path), "/"@)
}

/// Makes a path that cannot lead out of the directory it starts from.
pub fn sanitize_path(path: &str) -> (r: String)
    ensures
        r@ == sanitized(path@),
{
    let v = text::chars_of(path);
    let mut slashed: Vec<char> = Vec::new();
    let mut k: usize = 0;
    while k < v.len()
        invariant
            k <= v.len(),
            v@ == path@,
            slashed@ == with_forward_slashes(path@).take(k as int),
        decreases v.len() - k,
    {
        let c = v[k];
        proof {
            assert(with_forward_slashes(path@).take(k + 1) =~= with_forward_slashes(path@).take(
                k as int,
            ).push(with_forward_slashes(path@)[k as int]));
        }
        slashed.push(
            if c == '\\' {
                '/'
            } else {
                c
            },
        );
        k += 1;
    }
    proof {
        assert(with_forward_slashes(path@).take(path@.len() as int) =~= with_forward_slashes(path@));
    }
    let uniform = text::text_of(&slashed);
    let segments = text::split_text(uniform.as_str(), '/');
    let ghost all = text::split(with_forward_slashes(path@), '/');
    let ghost keep = |s: Seq<char>| is_plain_segment(s);
    let mut kept: Vec<String> = Vec::new();
    let mut i: usize = 0;
    proof {
        reveal(Seq::filter);
        assert(all.take(0) =~= Seq::<Seq<char>>::empty());
        assert(text::texts(kept@) =~= all.take(0).filter(keep));
    }
    while i < segments.len()
        invariant
            i <= segments.len(),
            all == text::texts(segments@),
            keep == (|s: Seq<char>| is_plain_segment(s)),
            text::texts(kept@) == all.take(i as int).filter(keep),
        decreases segments.len() - i,
    {
        let segment = segments[i].as_str();
        proof {
            sequences::lemma_filter_take(all, keep, i as int);
            assert(all[i as int] == segment@);
        }
        if !segment.is_empty() && !text::same(segment, ".") && !text::same(segment, "..") {
            let ghost before = text::texts(kept@);
            kept.push(segments[i].clone());
            assert(text::texts(kept@) =~= before.push(all[i as int]));
        }
        i += 1;
    }
    proof {
        assert(all.take(all.len() as int) =~= all);
    }
    text::join_texts(&kept, "/")
}

/// A sanitized path is empty or made of plain segments only, so it stays below
/// the directory it starts from.
pub proof fn sanitized_path_stays_inside(path: Seq<char>)
    ensures
        sanitized(path).len() == 0 || forall|i: int|
            0 <= i < text::split(sanitized(path), '/').len() ==> is_plain_segment(
                #[trigger] text::split(sanitized(path), '/')[i],
            ),
{
    let keep = |s: Seq<char>| is_plain_segment(s);
    let all = text::split(with_forward_slashes(path), '/');
    let kept = plain_segments(path);
    reveal_strlit("/");
    assert("/"@ =~= seq!['/']);
    text::lemma_split_pieces_hold_no_separator(with_forward_slashes(path), '/');
    assert forall|i: int| 0 <= i < kept.len() implies is_plain_segment(#[trigger] kept[i])
        && !kept[i].contains('/') by {
        sequences::lemma_filter_element(all, keep, i);
    }
    if kept.len() > 0 {
        text::split_undoes_join(kept, '/');
    }
}

/// Sanitizing a sanitized path changes nothing.
pub proof fn sanitizing_twice_changes_nothing(path: Seq<char>)
    ensures
        sanitized(sanitized(path)) == sanitized(path),
{
    let keep = |s: Seq<char>| is_plain_segment(s);
    let slashed = with_forward_slashes(path);
    let all = text::split(slashed, '/');
    let kept = plain_segments(path);
    let clean = sanitized(path);
    reveal_strlit("/");
    assert("/"@ =~= seq!['/']);
    text::lemma_split_pieces_hold_no_separator(slashed, '/');
    lemma_split_pieces_are_parts(slashed, '/', '\\');
    assert forall|i: int| 0 <= i < kept.len() implies is_plain_segment(#[trigger] kept[i])
        && !kept[i].contains('/') && !kept[i].contains('\\') by {
        sequences::lemma_filter_element(all, keep, i);
    }
    text::lemma_join_holds_no(kept, "/"@, '\\');
    assert(with_forward_slashes(clean) =~= clean) by {
        assert forall|i: int| 0 <= i < clean.len() implies clean[i] != '\\' by {
            assert(clean.contains(clean[i]));
        }
    }
    if kept.len() > 0 {
        text::split_undoes_join(kept, '/');
        sequences::lemma_filter_keeps_all(kept, keep);
    } else {
        assert(clean =~= Seq::<char>::empty());
        let pieces = text::split(clean, '/');
        assert(pieces =~= seq![Seq::<char>::empty()]);
        sequences::lemma_filter_take(pieces, keep, 0);
        assert(pieces.take(1) =~= pieces);
        assert(pieces.take(0) =~= Seq::<Seq<char>>::empty());
        assert(pieces.take(0).filter(keep) =~= Seq::<Seq<char>>::empty()) by {
            reveal(Seq::filter);
        }
    }
}

/// The pieces of a text without a character hold none of it either.
proof fn lemma_split_pieces_are_parts(s: Seq<char>, sep: char, c: char)
    requires
        !s.contains(c),
    ensures
        forall|i: int|
            0 <= i < text::split(s, sep).len() ==> !(#[trigger] text::split(s, sep)[i]).contains(c),
    decreases s.len(),
{
    if s.len() > 0 {
        let init = text::split(s.drop_last(), sep);
        text::lemma_split_not_empty(s.drop_last(), sep);
        assert forall|j: int| 0 <= j < s.drop_last().len() implies s.drop_last()[j] != c by {
            assert(s.contains(s[j]));
        }
        lemma_split_pieces_are_parts(s.drop_last(), sep, c);
        assert(s.contains(s.last()));
        if s.last() != sep {
            let grown = init.last().push(s.last());
            assert(!init[init.len() - 1].contains(c));
            assert forall|j: int| 0 <= j < grown.len() implies grown[j] != c by {
                if j < grown.len() - 1 {
                    assert(grown[j] == init.last()[j]);
                    assert(init.last().contains(init.last()[j]));
                }
            }
        }
    }
}

// ---------------------------------------------------------------------------
// Which files are media
// ---------------------------------------------------------------------------

/// The endings, in lower case, of the names of media files.
pub const MEDIA_EXTENSIONS: [&'static str; 22] = [
    ".mp4",
    ".mkv",
    ".avi",
    ".mov",
    ".webm",
    ".m4v",
    ".wmv",
    ".flv",
    ".ts",
    ".mts",
    ".m2ts",
    ".mp3",
    ".wav",
    ".flac",
    ".aac",
    ".ogg",
    ".m4a",
    ".wma",
    ".opus",
    ".mxf",
    ".mpg",
    ".mpeg",
];

/// A name in lower case that ends as a media file's does.
pub open spec fn has_media_extension(lower: Seq<char>) -> bool {
    exists|i: int| 0 <= i < 22 && text::has_suffix(lower, (#[trigger] MEDIA_EXTENSIONS@[i])@)
}

/// Whether a name in lower case ends as a media file's does.
pub fn is_lowercase_media_name(lower: &str) -> (r: bool)
    ensures
        r == has_media_extension(lower@),
{
    let extensions = MEDIA_EXTENSIONS;
    let mut i: usize = 0;
    while i < 22
        invariant
            i <= 22,
            extensions@ == MEDIA_EXTENSIONS@,
            forall|j: int|
                0 <= j < i ==> !text::has_suffix(lower@, (#[trigger] MEDIA_EXTENSIONS@[j])@),
        decreases 22 - i,
    {
        if text::ends_with(lower, extensions[i]) {
            assert(text::has_suffix(lower@, MEDIA_EXTENSIONS@[i as int]@));
            return true;
        }
        i += 1;
    }
    false
}

/// Whether a file is a media file, going by its name.
pub fn is_media_file(name: &str) -> (r: bool)
    ensures
        r == has_media_extension(text::lowercase(name@)),
{
    let lower = text::to_lowercase(name);
    is_lowercase_media_name(lower.as_str())
}

// ---------------------------------------------------------------------------
// The listing
// ---------------------------------------------------------------------------

/// Directories and media files are listed, unless their name is hidden.
pub open spec fn is_listed(entry: EntryInfo) -> bool {
    !(entry.name.len() > 0 && entry.name[0] == '.') && (entry.is_dir || has_media_extension(
        text::lowercase(entry.name),
    ))
}

/// The order of a listing: directories first, then by name without regard to
/// case.
pub open spec fn listed_no_later(a: EntryInfo, b: EntryInfo) -> bool {
    if a.is_dir != b.is_dir {
        a.is_dir
    } else {
        text::no_later(text::lowercase(a.name), text::lowercase(b.name))
    }
}

/// A sorted listing with one entry more, behind those it comes no earlier
/// than.
pub open spec fn with_entry(sorted: Seq<EntryInfo>, entry: EntryInfo) -> Seq<EntryInfo>
    decreases sorted.len(),
{
    if sorted.len() == 0 || listed_no_later(sorted.last(), entry) {
        sorted.push(entry)
    } else {
        with_entry(sorted.drop_last(), entry).push(sorted.last())
    }
}

/// The entries in the order of a listing; those that tie stay as they were.
pub open spec fn sorted_entries(entries: Seq<EntryInfo>) -> Seq<EntryInfo>
    decreases entries.len(),
{
    if entries.len() == 0 {
        Seq::empty()
    } else {
        with_entry(sorted_entries(entries.drop_last()), entries.last())
    }
}

/// An entry as it is listed: a directory has no size.
pub open spec fn shown(entry: EntryInfo) -> EntryInfo {
    EntryInfo {
        size: if entry.is_dir {
            0
        } else {
            entry.size
        },
        ..entry
    }
}

/// The entries of a directory that are listed, as they are listed.
pub open spec fn listed_entries(entries: Seq<EntryInfo>) -> Seq<EntryInfo> {
    entries.filter(|e: EntryInfo| is_listed(e)).map_values(|e: EntryInfo| shown(e))
}

/// The entries of a directory that are listed, in the order of the listing.
pub open spec fn listing(entries: Seq<EntryInfo>) -> Seq<EntryInfo> {
    sorted_entries(listed_entries(entries))
}

fn starts_hidden(name: &str) -> (r: bool)
    ensures
        r == (name@.len() > 0 && name@[0] == '.'),
{
    let v = text::chars_of(name);
    v.len() > 0 && v[0] == '.'
}

impl MediaEntry {
    fn as_listed(&self) -> (r: MediaEntry)
        ensures
            r@ == shown(self@),
    {
        MediaEntry {
            name: self.name.clone(),
            path: self.path.clone(),
            is_dir: self.is_dir,
            size: if self.is_dir {
                0
            } else {
                self.size
            },
        }
    }

    fn no_later_than(&self, other: &MediaEntry) -> (r: bool)
        ensures
            r == listed_no_later(self@, other@),
    {
        if self.is_dir != other.is_dir {
            self.is_dir
        } else {
            let a = text::to_lowercase(self.name.as_str());
            let b = text::to_lowercase(other.name.as_str());
            text::text_no_later(a.as_str(), b.as_str())
        }
    }
}

fn insert_entry(sorted: &mut Vec<MediaEntry>, entry: MediaEntry)
    ensures
        entry_infos(final(sorted)@) == with_entry(entry_infos(old(sorted)@), entry@),
{
    let ghost before = entry_infos(sorted@);
    let ghost added = entry@;
    let mut at: usize = sorted.len();
    proof {
        assert(before.take(at as int) =~= before);
        assert(with_entry(before.take(at as int), added) + before.skip(at as int) =~= with_entry(
            before,
            added,
        ));
    }
    while at > 0 && !sorted[at - 1].no_later_than(&entry)
        invariant
            at <= sorted.len(),
            before == entry_infos(sorted@),
            added == entry@,
            with_entry(before.take(at as int), added) + before.skip(at as int) == with_entry(
                before,
                added,
            ),
        decreases at,
    {
        proof {
            assert(before.take(at as int).drop_last() =~= before.take(at - 1));
            assert(before.take(at as int).last() == before[at - 1]);
            assert(with_entry(before.take(at as int), added) + before.skip(at as int)
                =~= with_entry(before.take(at - 1), added) + before.skip(at - 1));
        }
        at -= 1;
    }
    proof {
        if at > 0 {
            assert(before.take(at as int).last() == before[at - 1]);
        }
        assert(with_entry(before.take(at as int), added) == before.take(at as int).push(added));
    }
    sorted.insert(at, entry);
    assert(entry_infos(sorted@) =~= before.take(at as int).push(added) + before.skip(at as int));
}

/// The entries of a directory that are listed, in the order of the listing.
pub fn list_entries(entries: &Vec<MediaEntry>) -> (r: Vec<MediaEntry>)
    ensures
        entry_infos(r@) == listing(entry_infos(entries@)),
{
    let ghost all = entry_infos(entries@);
    let ghost keep = |e: EntryInfo| is_listed(e);
    let mut out: Vec<MediaEntry> = Vec::new();
    let mut i: usize = 0;
    proof {
        reveal(Seq::filter);
        assert(all.take(0) =~= Seq::<EntryInfo>::empty());
        assert(listed_entries(all.take(0)) =~= Seq::<EntryInfo>::empty());
        assert(entry_infos(out@) =~= sorted_entries(listed_entries(all.take(0))));
    }
    while i < entries.len()
        invariant
            i <= entries.len(),
            all == entry_infos(entries@),
            keep == (|e: EntryInfo| is_listed(e)),
            entry_infos(out@) == sorted_entries(listed_entries(all.take(i as int))),
        decreases entries.len() - i,
    {
        let entry = &entries[i];
        let ghost kept = listed_entries(all.take(i as int));
        proof {
            sequences::lemma_filter_take(all, keep, i as int);
            assert(all[i as int] == entry@);
            if is_listed(entry@) {
                assert(listed_entries(all.take(i + 1)) =~= kept.push(shown(entry@)));
                assert(kept.push(shown(entry@)).drop_last() =~= kept);
            } else {
                assert(listed_entries(all.take(i + 1)) =~= kept);
            }
        }
        if !starts_hidden(entry.name.as_str()) && (entry.is_dir || is_media_file(
            entry.name.as_str(),
        )) {
            insert_entry(&mut out, entry.as_listed());
        }
        i += 1;
    }
    proof {
        assert(all.take(all.len() as int) =~= all);
    }
    out
}

/// The path that a listing is asked for, below the media root.
pub open spec fn requested_path(query: ListMediaQuery) -> Seq<char> {
    match query.path {
        Some(path) => path@,
        None => Seq::empty(),
    }
}

/// The directory to list, from the media root. Nothing asked for is the root
/// itself.
pub fn directory_to_list(query: &ListMediaQuery) -> (r: String)
    ensures
        r@ == sanitized(requested_path(*query)),
{
    match &query.path {
        Some(path) => sanitize_path(path.as_str()),
        None => {
            let root = sanitize_path("");
            proof {
                reveal_strlit("");
                assert(""@ =~= Seq::<char>::empty());
            }
            root
        },
    }
}

/// A listing of a directory, from what is in it. The path above the one asked
/// for is given; the root has none.
pub fn list_media_files(
    query: ListMediaQuery,
    parent_path: Option<String>,
    entries: &Vec<MediaEntry>,
) -> (r: ListMediaResponse)
    ensures
        r.current_path@ == requested_path(query),
        r.parent_path == if requested_path(query).len() == 0 {
            None
        } else {
            parent_path
        },
        entry_infos(r.entries@) == listing(entry_infos(entries@)),
{
    let current_path = match query.path {
        Some(path) => path,
        None => String::new(),
    };
    let parent = if current_path.as_str().is_empty() {
        None
    } else {
        parent_path
    };
    ListMediaResponse { current_path, parent_path: parent, entries: list_entries(entries) }
}

/// A path below a directory that reads the same wherever paths are written: its
/// segments are plain and between slashes, and nothing in them separates or
/// prefixes paths anywhere.
pub open spec fn is_portable(path: Seq<char>) -> bool {
    &&& !path.contains('\\') && !path.contains(':')
    &&& forall|i: int|
        0 <= i < text::split(path, '/').len() ==> is_plain_segment(
            #[trigger] text::split(path, '/')[i],
        )
}

/// What comes before the last slash of a path.
pub open spec fn parent_text(path: Seq<char>) -> Seq<char> {
    text::join(text::split(path, '/').drop_last(), "/"@)
}

/// A path without the slashes that it ends with.
pub open spec fn without_end_slashes(path: Seq<char>) -> Seq<char>
    decreases path.len(),
{
    if path.len() > 0 && path.last() == '/' {
        without_end_slashes(path.drop_last())
    } else {
        path
    }
}

/// Calls `std::path::Path::parent`, which hands out the path without its final
/// component, if there is one: nothing for an empty path; else, where there is
/// something, a shorter path that the given one begins with; and for a path
/// that reads the same everywhere but for slashes at its end, which count for
/// nothing, what comes before the last slash in front of those, which is empty
/// where there is none.
///
/// What separates the components of other paths, and what counts as a root, is
/// up to the machine, so nothing more is said of them.
#[verifier::external_body]
fn parent_of(path: &str) -> (r: Option<String>)
    ensures
        path@.len() == 0 ==> r is None,
        r is Some ==> r->0@ != path@ && text::has_prefix(path@, r->0@),
        is_portable(without_end_slashes(path@)) ==> r is Some && r->0@ == parent_text(
            without_end_slashes(path@),
        ),
{
    match std::path::Path::new(path).parent() {
        Some(parent) => Some(parent.to_string_lossy().to_string()),
        None => None,
    }
}

/// A listing of a directory, from what is in it, with the path above the one
/// asked for.
pub fn list_directory(query: ListMediaQuery, entries: &Vec<MediaEntry>) -> (r: ListMediaResponse)
    ensures
        r.current_path@ == requested_path(query),
        entry_infos(r.entries@) == listing(entry_infos(entries@)),
        requested_path(query).len() == 0 ==> r.parent_path is None,
        r.parent_path matches Some(parent) ==> parent@ != requested_path(query)
            && text::has_prefix(requested_path(query), parent@),
        is_portable(without_end_slashes(requested_path(query))) ==> (
        r.parent_path matches Some(parent) && parent@ == parent_text(
            without_end_slashes(requested_path(query)),
        )),
{
    let parent = match &query.path {
        Some(path) => parent_of(path.as_str()),
        None => None,
    };
    proof {
        if requested_path(query).len() == 0 {
            lemma_empty_is_not_portable(requested_path(query));
        }
    }
    list_media_files(query, parent, entries)
}

proof fn lemma_empty_is_not_portable(path: Seq<char>)
    requires
        path.len() == 0,
    ensures
        !is_portable(path),
{
    assert(text::split(path, '/')[0].len() == 0);
}

/// Every entry comes no later than those behind it.
pub open spec fn in_listing_order(s: Seq<EntryInfo>) -> bool {
    forall|i: int, j: int|
        0 <= i < j < s.len() ==> listed_no_later(#[trigger] s[i], #[trigger] s[j])
}

proof fn lemma_listed_order(a: EntryInfo, b: EntryInfo, c: EntryInfo)
    ensures
        listed_no_later(a, b) || listed_no_later(b, a),
        listed_no_later(a, b) && listed_no_later(b, c) ==> listed_no_later(a, c),
{
    let (x, y, z) = (text::lowercase(a.name), text::lowercase(b.name), text::lowercase(c.name));
    text::lemma_no_later_total(x, y);
    if text::no_later(x, y) && text::no_later(y, z) {
        text::lemma_no_later_transitive(x, y, z);
    }
}

proof fn lemma_with_entry(sorted: Seq<EntryInfo>, entry: EntryInfo)
    requires
        in_listing_order(sorted),
    ensures
        in_listing_order(with_entry(sorted, entry)),
        with_entry(sorted, entry).to_multiset() == sorted.to_multiset().insert(entry),
        with_entry(sorted, entry).len() == sorted.len() + 1,
    decreases sorted.len(),
{
    sorted.to_multiset_ensures();
    if sorted.len() == 0 || listed_no_later(sorted.last(), entry) {
        let out = sorted.push(entry);
        assert forall|i: int, j: int| 0 <= i < j < out.len() implies listed_no_later(
            #[trigger] out[i],
            #[trigger] out[j],
        ) by {
            if j == sorted.len() && i < sorted.len() - 1 {
                assert(listed_no_later(sorted[i], sorted[sorted.len() - 1]));
                lemma_listed_order(sorted[i], sorted.last(), entry);
            }
        }
    } else {
        let init = sorted.drop_last();
        assert(in_listing_order(init));
        lemma_with_entry(init, entry);
        let smaller = with_entry(init, entry);
        let out = smaller.push(sorted.last());
        lemma_listed_order(sorted.last(), entry, entry);
        smaller.to_multiset_ensures();
        init.to_multiset_ensures();
        assert(init.push(sorted.last()) =~= sorted);
        assert(out.to_multiset() =~= sorted.to_multiset().insert(entry));
        assert forall|i: int, j: int| 0 <= i < j < out.len() implies listed_no_later(
            #[trigger] out[i],
            #[trigger] out[j],
        ) by {
            if j == smaller.len() {
                assert(smaller.contains(smaller[i]));
                assert(smaller.to_multiset().count(smaller[i]) > 0);
                if smaller[i] != entry {
                    assert(init.to_multiset().count(smaller[i]) > 0);
                    assert(init.contains(smaller[i]));
                    let k = choose|k: int| 0 <= k < init.len() && init[k] == smaller[i];
                    assert(listed_no_later(sorted[k], sorted[sorted.len() - 1]));
                }
            }
        }
    }
}

proof fn lemma_sorted_entries(entries: Seq<EntryInfo>)
    ensures
        in_listing_order(sorted_entries(entries)),
        sorted_entries(entries).to_multiset() == entries.to_multiset(),
    decreases entries.len(),
{
    if entries.len() > 0 {
        let init = entries.drop_last();
        lemma_sorted_entries(init);
        lemma_with_entry(sorted_entries(init), entries.last());
        init.to_multiset_ensures();
        assert(init.push(entries.last()) =~= entries);
    } else {
        assert(sorted_entries(entries) =~= entries);
    }
}

/// A listing holds exactly the entries that are listed, directories first and
/// each group by name without regard to case.
pub proof fn listing_is_sorted_and_complete(entries: Seq<EntryInfo>)
    ensures
        in_listing_order(listing(entries)),
        listing(entries).to_multiset() == listed_entries(entries).to_multiset(),
{
    lemma_sorted_entries(listed_entries(entries));
}

/// No directory is listed with a size.
pub proof fn directories_have_no_size(entries: Seq<EntryInfo>, i: int)
    requires
        0 <= i < listing(entries).len(),
        listing(entries)[i].is_dir,
    ensures
        listing(entries)[i].size == 0,
{
    let kept = entries.filter(|e: EntryInfo| is_listed(e));
    let listed = listed_entries(entries);
    listing_is_sorted_and_complete(entries);
    listing(entries).to_multiset_ensures();
    listed.to_multiset_ensures();
    assert(listing(entries).to_multiset().count(listing(entries)[i]) > 0);
    assert(listed.contains(listing(entries)[i]));
    let k = choose|k: int| 0 <= k < listed.len() && listed[k] == listing(entries)[i];
    assert(listed[k] == shown(kept[k]));
}

// ---------------------------------------------------------------------------
// What is not listed
// ---------------------------------------------------------------------------

/// Why a directory is not listed.
pub enum ListingFailure {
    /// The media root could not be made.
    NoRoot(String),
    /// The media root could not be resolved.
    UnresolvedRoot(String),
    NotFound,
    /// It lies outside the media root.
    Outside,
    Unreadable(String),
}

impl ListingFailure {
    /// What a request is answered with.
    pub open spec fn answer(self) -> ReplyInfo {
        match self {
            ListingFailure::NoRoot(e) => (500u16, "Failed to create media directory: "@ + e@),
            ListingFailure::UnresolvedRoot(e) => (500u16, "Failed to resolve media root: "@ + e@),
            ListingFailure::NotFound => (404u16, "Directory not found"@),
            ListingFailure::Outside => (403u16, "Access denied"@),
            ListingFailure::Unreadable(e) => (500u16, "Failed to read directory: "@ + e@),
        }
    }

    /// What a request is answered with.
    pub fn to_reply(&self) -> (r: Reply)
        ensures
            r@ == self.answer(),
    {
        match self {
            ListingFailure::NoRoot(e) => {
                let body = "Failed to create media directory: ".to_owned().concat(e.as_str());
                reply(500, body.as_str())
            },
            ListingFailure::UnresolvedRoot(e) => {
                let body = "Failed to resolve media root: ".to_owned().concat(e.as_str());
                reply(500, body.as_str())
            },
            ListingFailure::NotFound => reply(404, "Directory not found"),
            ListingFailure::Outside => reply(403, "Access denied"),
            ListingFailure::Unreadable(e) => {
                let body = "Failed to read directory: ".to_owned().concat(e.as_str());
                reply(500, body.as_str())
            },
        }
    }
}

/// Whether a path leads into a directory, each given by its components.
pub open spec fn lies_inside(root: Seq<Seq<char>>, path: Seq<Seq<char>>) -> bool {
    root.is_prefix_of(path)
}

/// Whether a directory may be listed, given it and the media root with every
/// link resolved, by their components.
pub fn check_inside(root: &Vec<String>, path: &Vec<String>) -> (r: Result<(), ListingFailure>)
    ensures
        match r {
            Ok(_) => lies_inside(text::texts(root@), text::texts(path@)),
            Err(e) => e is Outside && !lies_inside(text::texts(root@), text::texts(path@)),
        },
{
    let ghost above = text::texts(root@);
    let ghost all = text::texts(path@);
    if root.len() > path.len() {
        return Err(ListingFailure::Outside);
    }
    let mut i: usize = 0;
    while i < root.len()
        invariant
            i <= root.len() <= path.len(),
            above == text::texts(root@),
            all == text::texts(path@),
            above.take(i as int) == all.take(i as int),
        decreases root.len() - i,
    {
        assert(above[i as int] == root@[i as int]@ && all[i as int] == path@[i as int]@);
        if !text::same(root[i].as_str(), path[i].as_str()) {
            assert(all.subrange(0, above.len() as int)[i as int] == all[i as int]);
            return Err(ListingFailure::Outside);
        }
        assert(above.take(i + 1) =~= above.take(i as int).push(above[i as int]));
        assert(all.take(i + 1) =~= all.take(i as int).push(all[i as int]));
        i += 1;
    }
    assert(above.take(above.len() as int) =~= above);
    assert(all.take(above.len() as int) =~= all.subrange(0, above.len() as int));
    Ok(())
}

} // verus!
