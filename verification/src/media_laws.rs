//! Laws on the media directory: which paths are listed, which files are media, and
//! what a listing holds.

use crate::media;
use crate::media::{EntryInfo, ListingFailure};
use crate::sequences;
use crate::text;
use vstd::prelude::*;

verus! {

// ---------------------------------------------------------------------------
// Paths
// ---------------------------------------------------------------------------

/// A backslash counts as a slash, and every other character as itself.
pub proof fn backslashes_count_as_slashes(path: Seq<char>, i: int)
    requires
        0 <= i < path.len(),
    ensures
        media::with_forward_slashes(path).len() == path.len(),
        path[i] == '\\' ==> media::with_forward_slashes(path)[i] == '/',
        path[i] != '\\' ==> media::with_forward_slashes(path)[i] == path[i],
        media::sanitized(media::with_forward_slashes(path)) == media::sanitized(path),
{
    let once = media::with_forward_slashes(path);
    assert(media::with_forward_slashes(once) =~= once);
}

/// A name that stands for something inside a directory: it is not empty, and not
/// one of the two that stand for the directory itself and the one above.
pub open spec fn is_name(s: Seq<char>) -> bool {
    s.len() > 0 && s != seq!['.'] && s != seq!['.', '.']
}

/// Of the parts of a path those that are names are kept, in their order, and no
/// others: nothing leads up, and nothing is left out that leads down.
pub proof fn names_in_a_path_are_kept(parts: Seq<Seq<char>>)
    requires
        parts.len() > 0,
        forall|i: int|
            0 <= i < parts.len() ==> !(#[trigger] parts[i]).contains('/')
                && !parts[i].contains('\\'),
    ensures
        media::sanitized(text::join(parts, seq!['/'])) == text::join(
            parts.filter(|s: Seq<char>| is_name(s)),
            seq!['/'],
        ),
        (forall|i: int| 0 <= i < parts.len() ==> is_name(#[trigger] parts[i]))
            ==> media::sanitized(text::join(parts, seq!['/'])) == text::join(parts, seq!['/']),
{
    let path = text::join(parts, seq!['/']);
    reveal_strlit("/");
    reveal_strlit(".");
    reveal_strlit("..");
    assert("/"@ =~= seq!['/']);
    assert("."@ =~= seq!['.']);
    assert(".."@ =~= seq!['.', '.']);
    assert forall|i: int| 0 <= i < path.len() implies path[i] != '\\' by {
        text::lemma_join_holds_no(parts, seq!['/'], '\\');
        assert(path.contains(path[i]));
    }
    assert(media::with_forward_slashes(path) =~= path);
    text::split_undoes_join(parts, '/');
    let keep = |s: Seq<char>| is_name(s);
    let plain = |s: Seq<char>| media::is_plain_segment(s);
    assert forall|s: Seq<char>| #[trigger] keep(s) == plain(s) by {}
    lemma_filters_agree(parts, keep, plain);
    if forall|i: int| 0 <= i < parts.len() ==> is_name(#[trigger] parts[i]) {
        assert forall|i: int| 0 <= i < parts.len() implies keep(#[trigger] parts[i]) by {}
        sequences::lemma_filter_keeps_all(parts, keep);
    }
}

proof fn lemma_filters_agree<A>(s: Seq<A>, p: spec_fn(A) -> bool, q: spec_fn(A) -> bool)
    requires
        forall|a: A| #[trigger] p(a) == q(a),
    ensures
        s.filter(p) == s.filter(q),
    decreases s.len(),
{
    reveal(Seq::filter);
    if s.len() > 0 {
        lemma_filters_agree(s.drop_last(), p, q);
        assert(p(s.last()) == q(s.last()));
    }
}

/// Above something in a directory is the directory, and slashes at the end of a
/// path count for nothing.
pub proof fn parents_are_one_step_up(parts: Seq<Seq<char>>, last: Seq<char>, path: Seq<char>)
    requires
        !last.contains('/'),
        forall|i: int| 0 <= i < parts.len() ==> !(#[trigger] parts[i]).contains('/'),
    ensures
        media::parent_text(text::join(parts.push(last), seq!['/'])) == text::join(
            parts,
            seq!['/'],
        ),
        media::without_end_slashes(path.push('/')) == media::without_end_slashes(path),
        path.len() > 0 && path.last() != '/' ==> media::without_end_slashes(path) == path,
{
    reveal_strlit("/");
    assert("/"@ =~= seq!['/']);
    let all = parts.push(last);
    assert forall|i: int| 0 <= i < all.len() implies !(#[trigger] all[i]).contains('/') by {
        if i < parts.len() {
            assert(all[i] == parts[i]);
        }
    }
    text::split_undoes_join(all, '/');
    assert(all.drop_last() =~= parts);
    assert(path.push('/').drop_last() =~= path);
}

/// What lies inside a directory has all of its components before its own.
pub proof fn inside_is_below(root: Seq<Seq<char>>, rest: Seq<Seq<char>>, path: Seq<Seq<char>>)
    ensures
        media::lies_inside(root, root + rest),
        media::lies_inside(root, path) ==> path.len() >= root.len() && forall|i: int|
            0 <= i < root.len() ==> #[trigger] root[i] == path[i],
        (exists|i: int| 0 <= i < root.len() && i < path.len() && #[trigger] root[i] != path[i])
            ==> !media::lies_inside(root, path),
        path.len() < root.len() ==> !media::lies_inside(root, path),
{
    let all = root + rest;
    assert(all.subrange(0, root.len() as int) =~= root);
    if media::lies_inside(root, path) {
        assert forall|i: int| 0 <= i < root.len() implies #[trigger] root[i] == path[i] by {
            assert(path.subrange(0, root.len() as int)[i] == path[i]);
        }
    }
}

// ---------------------------------------------------------------------------
// Media files
// ---------------------------------------------------------------------------

/// The endings of media files.
pub open spec fn endings() -> Seq<Seq<char>> {
    seq![
        ".mp4"@,
        ".mkv"@,
        ".avi"@,
        ".mov"@,
        ".webm"@,
        ".m4v"@,
        ".wmv"@,
        ".flv"@,
        ".ts"@,
        ".mts"@,
        ".m2ts"@,
        ".mp3"@,
        ".wav"@,
        ".flac"@,
        ".aac"@,
        ".ogg"@,
        ".m4a"@,
        ".wma"@,
        ".opus"@,
        ".mxf"@,
        ".mpg"@,
        ".mpeg"@,
    ]
}

/// A name in lower case is that of a media file just where it ends in one of the
/// endings of video and audio files.
pub proof fn media_files_are_known_by_their_ending(lower: Seq<char>)
    ensures
        media::has_media_extension(lower) <==> exists|i: int|
            0 <= i < endings().len() && text::has_suffix(lower, #[trigger] endings()[i]),
{
    assert forall|i: int| 0 <= i < 22 implies (#[trigger] media::MEDIA_EXTENSIONS@[i])@
        == endings()[i] by {}
    if media::has_media_extension(lower) {
        let i = choose|i: int|
            0 <= i < 22 && text::has_suffix(lower, (#[trigger] media::MEDIA_EXTENSIONS@[i])@);
        assert(text::has_suffix(lower, endings()[i]));
    }
    if exists|i: int| 0 <= i < endings().len() && text::has_suffix(lower, #[trigger] endings()[i]) {
        let i = choose|i: int|
            0 <= i < endings().len() && text::has_suffix(lower, #[trigger] endings()[i]);
        assert(text::has_suffix(lower, media::MEDIA_EXTENSIONS@[i]@));
    }
}

// ---------------------------------------------------------------------------
// Listings
// ---------------------------------------------------------------------------

/// Hidden names are not listed. Of the others every directory is, and every file
/// that is a media file by its name, in whichever case.
pub proof fn directories_and_media_are_listed(entry: EntryInfo)
    ensures
        entry.name.len() > 0 && entry.name[0] == '.' ==> !media::is_listed(entry),
        entry.name.len() > 0 && entry.name[0] != '.' && entry.is_dir ==> media::is_listed(entry),
        entry.name.len() > 0 && entry.name[0] != '.' && !entry.is_dir ==> (media::is_listed(entry)
            <==> media::has_media_extension(text::lowercase(entry.name))),
{
}

/// A listing holds what is listed, with its name, its path and its size, and
/// nothing else; a directory is listed without a size.
pub proof fn listings_hold_what_is_listed(entries: Seq<EntryInfo>, k: int, e: EntryInfo)
    ensures
        0 <= k < entries.len() && media::is_listed(entries[k]) ==> media::listing(
            entries,
        ).contains(
            EntryInfo {
                size: if entries[k].is_dir {
                    0
                } else {
                    entries[k].size
                },
                ..entries[k]
            },
        ),
        media::listing(entries).contains(e) ==> exists|j: int|
            0 <= j < entries.len() && media::is_listed(#[trigger] entries[j]) && e == (EntryInfo {
                size: if entries[j].is_dir {
                    0
                } else {
                    entries[j].size
                },
                ..entries[j]
            }),
{
    let keep = |x: EntryInfo| media::is_listed(x);
    let kept = entries.filter(keep);
    let listed = media::listed_entries(entries);
    let all = media::listing(entries);
    media::listing_is_sorted_and_complete(entries);
    all.to_multiset_ensures();
    listed.to_multiset_ensures();
    if 0 <= k < entries.len() && media::is_listed(entries[k]) {
        let wanted = media::shown(entries[k]);
        entries.lemma_filter_contains(keep, k);
        let j = choose|j: int| 0 <= j < kept.len() && kept[j] == entries[k];
        assert(listed[j] == wanted);
        assert(listed.contains(wanted));
        assert(all.to_multiset().count(wanted) > 0);
        assert(all.contains(wanted));
    }
    if all.contains(e) {
        assert(listed.to_multiset().count(e) > 0);
        let j = choose|j: int| 0 <= j < listed.len() && listed[j] == e;
        assert(listed[j] == media::shown(kept[j]));
        sequences::lemma_filter_element(entries, keep, j);
        let i = choose|i: int| 0 <= i < entries.len() && entries[i] == kept[j];
        assert(media::is_listed(entries[i]));
    }
}

/// Directories come before files, and those of one kind by their names without
/// regard to case.
pub proof fn listings_are_in_order(entries: Seq<EntryInfo>, i: int, j: int)
    requires
        0 <= i < j < media::listing(entries).len(),
    ensures
        ({
            let a = media::listing(entries)[i];
            let b = media::listing(entries)[j];
            &&& b.is_dir ==> a.is_dir
            &&& a.is_dir == b.is_dir ==> text::no_later(
                text::lowercase(a.name),
                text::lowercase(b.name),
            )
        }),
{
    media::listing_is_sorted_and_complete(entries);
}

/// An entry that is put into a listing stands behind those that come no later than
/// it and before all others, and the others stay as they are: of two that are
/// alike in name and kind the one that came first stays first.
pub proof fn entries_are_put_behind_their_equals(sorted: Seq<EntryInfo>, entry: EntryInfo) -> (k: int)
    requires
        media::in_listing_order(sorted),
    ensures
        0 <= k <= sorted.len(),
        media::with_entry(sorted, entry) == sorted.insert(k, entry),
        k > 0 ==> media::listed_no_later(sorted[k - 1], entry),
        forall|j: int| k <= j < sorted.len() ==> !media::listed_no_later(#[trigger] sorted[j], entry),
    decreases sorted.len(),
{
    if sorted.len() == 0 || media::listed_no_later(sorted.last(), entry) {
        assert(sorted.insert(sorted.len() as int, entry) =~= sorted.push(entry));
        sorted.len() as int
    } else {
        let init = sorted.drop_last();
        assert(media::in_listing_order(init));
        let k = entries_are_put_behind_their_equals(init, entry);
        assert(sorted.insert(k, entry) =~= init.insert(k, entry).push(sorted.last()));
        assert forall|j: int| k <= j < sorted.len() implies !media::listed_no_later(
            #[trigger] sorted[j],
            entry,
        ) by {
            if j < init.len() {
                assert(init[j] == sorted[j]);
            }
        }
        k
    }
}

/// What is not there is not found, what lies outside is denied, and what goes wrong
/// on this side is an error of the server, each told with its reason.
pub proof fn failures_have_their_answers(e: String)
    ensures
        ListingFailure::NotFound.answer() == (404u16, "Directory not found"@),
        ListingFailure::Outside.answer() == (403u16, "Access denied"@),
        ListingFailure::NoRoot(e).answer() == (500u16, "Failed to create media directory: "@ + e@),
        ListingFailure::UnresolvedRoot(e).answer() == (
            500u16,
            "Failed to resolve media root: "@ + e@,
        ),
        ListingFailure::Unreadable(e).answer() == (500u16, "Failed to read directory: "@ + e@),
{
}

} // verus!
