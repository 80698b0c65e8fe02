//! What being the same page and belonging to a source mean: laws on the search
//! for the page of an HTML source.

use crate::devtools::access;
use crate::devtools::targets;
use crate::devtools::targets::{Page, Resolved, SourceInfo};
use crate::flow;
use crate::flow::{BlockInfo, Flow};
use crate::json;
use crate::json::JsonTree;
use crate::properties::PropertyTree;
use crate::sequences;
use crate::text;
use vstd::prelude::*;

verus! {

// ---------------------------------------------------------------------------
// Addresses
// ---------------------------------------------------------------------------

/// Addresses that do not end with a slash are the same page where they are
/// equal, and only there.
pub proof fn addresses_without_end_slash_are_told_apart(a: Seq<char>, b: Seq<char>)
    requires
        a.len() == 0 || a.last() != '/',
        b.len() == 0 || b.last() != '/',
    ensures
        targets::is_same_page(a, b) <==> a == b,
{
}

/// A slash more at the end of either address makes no difference to whether
/// they are the same page.
pub proof fn end_slash_makes_no_difference(a: Seq<char>, b: Seq<char>)
    ensures
        targets::is_same_page(a.push('/'), b) == targets::is_same_page(a, b),
        targets::is_same_page(a, b.push('/')) == targets::is_same_page(a, b),
{
    assert(a.push('/').drop_last() =~= a);
    assert(b.push('/').drop_last() =~= b);
}

/// Two addresses are the same page exactly where both are some text with any
/// number of slashes behind it.
pub proof fn same_page_is_same_but_for_end_slashes(a: Seq<char>, b: Seq<char>)
    ensures
        targets::is_same_page(a, b) <==> exists|bare: Seq<char>, m: nat, n: nat|
            a == #[trigger] slashed(bare, m) && b == #[trigger] slashed(bare, n),
{
    if targets::is_same_page(a, b) {
        let bare = text::trim_end_of(a, '/');
        let m = lemma_slashed(a);
        let n = lemma_slashed(b);
        assert(a == slashed(bare, m) && b == slashed(bare, n));
    }
    assert forall|bare: Seq<char>, m: nat, n: nat|
        a == #[trigger] slashed(bare, m) && b == #[trigger] slashed(
            bare,
            n,
        ) implies targets::is_same_page(a, b) by {
        lemma_slashes_go(bare, m);
        lemma_slashes_go(bare, n);
    }
}

/// A text with `n` slashes behind it.
pub open spec fn slashed(bare: Seq<char>, n: nat) -> Seq<char> {
    bare + Seq::new(n, |i: int| '/')
}

proof fn lemma_slashed(a: Seq<char>) -> (n: nat)
    ensures
        a == slashed(text::trim_end_of(a, '/'), n),
    decreases a.len(),
{
    if a.len() > 0 && a.last() == '/' {
        let n = lemma_slashed(a.drop_last());
        let bare = text::trim_end_of(a, '/');
        assert(a =~= a.drop_last().push('/'));
        assert(slashed(bare, n).push('/') =~= slashed(bare, n + 1));
        n + 1
    } else {
        assert(a =~= slashed(a, 0));
        0
    }
}

proof fn lemma_slashes_go(bare: Seq<char>, n: nat)
    ensures
        text::trim_end_of(slashed(bare, n), '/') == text::trim_end_of(bare, '/'),
    decreases n,
{
    if n > 0 {
        lemma_slashes_go(bare, (n - 1) as nat);
        assert(slashed(bare, n).drop_last() =~= slashed(bare, (n - 1) as nat));
    } else {
        assert(slashed(bare, 0) =~= bare);
    }
}

/// An address with a further segment is another page.
pub proof fn further_segment_is_another_page(url: Seq<char>, segment: Seq<char>)
    requires
        url.len() == 0 || url.last() != '/',
        segment.len() > 0,
        segment.last() != '/',
    ensures
        !targets::is_same_page(url, url + segment),
        !targets::is_same_page(url.push('/'), url.push('/') + segment),
{
    addresses_without_end_slash_are_told_apart(url, url + segment);
    assert((url + segment).len() > url.len());
    let longer = url.push('/') + segment;
    end_slash_makes_no_difference(url, longer);
    addresses_without_end_slash_are_told_apart(url, longer);
    assert(longer.len() > url.len());
}

/// A character that ends the host and port of an address.
pub open spec fn ends_authority(c: char) -> bool {
    c == '/' || c == '?' || c == '#'
}

/// The site of an address is its scheme, host and port, whatever stands behind
/// them.
pub proof fn site_is_scheme_and_authority(
    scheme: Seq<char>,
    authority: Seq<char>,
    rest: Seq<char>,
)
    requires
        scheme.len() > 0,
        !scheme.contains(':'),
        forall|i: int| 0 <= i < authority.len() ==> !ends_authority(#[trigger] authority[i]),
        rest.len() > 0 ==> ends_authority(rest[0]),
    ensures
        targets::url_origin(scheme + "://"@ + authority + rest) == Some(
            scheme + "://"@ + authority,
        ),
{
    reveal_strlit("://");
    let url = scheme + "://"@ + authority + rest;
    let n = scheme.len() as int;
    assert(url.take(n + 3) =~= scheme + "://"@);
    lemma_first_mark(url, scheme, 0);
    lemma_authority_end(url, n + 3, n + 3 + authority.len());
    assert(url.take(n + 3 + authority.len()) =~= scheme + "://"@ + authority);
}

proof fn lemma_first_mark(url: Seq<char>, scheme: Seq<char>, i: int)
    requires
        0 <= i <= scheme.len(),
        !scheme.contains(':'),
        url.len() >= scheme.len() + 3,
        url.take(scheme.len() as int + 3) == scheme + "://"@,
    ensures
        text::find_from(url, "://"@, i) == Some(scheme.len() as int),
    decreases scheme.len() - i,
{
    reveal_strlit("://");
    let n = scheme.len() as int;
    assert forall|k: int| 0 <= k < n + 3 implies url[k] == (scheme + "://"@)[k] by {
        assert(url.take(n + 3)[k] == url[k]);
    }
    if i < n {
        if text::occurs_at(url, "://"@, i) {
            assert(url.subrange(i, i + 3)[0] == ':');
            assert(scheme[i] == ':');
        }
        lemma_first_mark(url, scheme, i + 1);
    } else {
        assert(url.subrange(n, n + 3) =~= "://"@);
    }
}

proof fn lemma_authority_end(url: Seq<char>, i: int, end: int)
    requires
        0 <= i <= end <= url.len(),
        forall|k: int| i <= k < end ==> !ends_authority(#[trigger] url[k]),
        end < url.len() ==> ends_authority(url[end]),
    ensures
        targets::authority_end(url, i) == end,
    decreases end - i,
{
    if i < end {
        lemma_authority_end(url, i + 1, end);
    }
}

/// An address without `://`, or with nothing before it, has no site.
pub proof fn address_without_scheme_has_no_site(url: Seq<char>)
    requires
        (forall|i: int| !text::occurs_at(url, "://"@, i)) || text::occurs_at(url, "://"@, 0),
    ensures
        targets::url_origin(url) is None,
        forall|other: Seq<char>| !#[trigger] targets::is_same_origin(url, other),
        forall|other: Seq<char>| !#[trigger] targets::is_same_origin(other, url),
{
    if !text::occurs_at(url, "://"@, 0) {
        lemma_not_found(url, "://"@, 0);
    }
}

proof fn lemma_not_found(s: Seq<char>, part: Seq<char>, i: int)
    requires
        0 <= i,
        forall|k: int| !text::occurs_at(s, part, k),
    ensures
        text::find_from(s, part, i) is None,
    decreases s.len() + 1 - i,
{
    if i + part.len() <= s.len() {
        lemma_not_found(s, part, i + 1);
    }
}

/// The same letter, in either case, or the same character.
pub open spec fn same_letter(a: char, b: char) -> bool {
    ||| a == b
    ||| 'A' <= a <= 'Z' && b as int == a as int + 32
    ||| 'A' <= b <= 'Z' && a as int == b as int + 32
}

/// Two addresses are on the same site where both have one, and the two differ
/// in nothing but the case of letters.
pub proof fn same_site_is_same_but_for_case(a: Seq<char>, b: Seq<char>)
    ensures
        targets::is_same_origin(a, b) <==> (targets::url_origin(a) matches Some(x)
            && targets::url_origin(b) matches Some(y) && x.len() == y.len() && forall|i: int|
            0 <= i < x.len() ==> same_letter(#[trigger] x[i], y[i])),
{
    if let (Some(x), Some(y)) = (targets::url_origin(a), targets::url_origin(b)) {
        assert forall|i: int| 0 <= i < x.len() && i < y.len() implies (text::ascii_lower(
            #[trigger] x[i],
        ) == text::ascii_lower(y[i]) <==> same_letter(x[i], y[i])) by {
            lemma_case(x[i], y[i]);
        }
        if targets::is_same_origin(a, b) {
            assert forall|i: int| 0 <= i < x.len() implies same_letter(#[trigger] x[i], y[i]) by {
                assert(text::ascii_lower(x[i]) == text::ascii_lower(y[i]));
            }
        }
    }
}

proof fn lemma_case(a: char, b: char)
    ensures
        text::ascii_lower(a) == text::ascii_lower(b) <==> same_letter(a, b),
{
}

// ---------------------------------------------------------------------------
// The page of a source
// ---------------------------------------------------------------------------

/// No page is at the address.
pub open spec fn nowhere_rendered(pages: Seq<Page>, url: Seq<char>) -> bool {
    forall|i: int| 0 <= i < pages.len() ==> !targets::is_same_page((#[trigger] pages[i]).1, url)
}

/// No source was pointed at the address.
pub open spec fn pointed_at_by_none(sources: Seq<SourceInfo>, url: Seq<char>) -> bool {
    forall|k: int|
        0 <= k < sources.len() ==> !targets::is_same_page(url, (#[trigger] sources[k]).url)
}

/// The page is on the site of the address, and no source was pointed at it.
pub open spec fn is_stray_on_site(page: Page, sources: Seq<SourceInfo>, url: Seq<char>) -> bool {
    targets::is_same_origin(page.1, url) && pointed_at_by_none(sources, page.1)
}

/// The source was pointed into the site of the address, and has no page.
pub open spec fn is_lost_on_site(
    source: SourceInfo,
    pages: Seq<Page>,
    url: Seq<char>,
) -> bool {
    nowhere_rendered(pages, source.url) && targets::is_same_origin(source.url, url)
}

/// No source was pointed at the page, and none without a page into its site.
pub open spec fn is_left_over(page: Page, pages: Seq<Page>, sources: Seq<SourceInfo>) -> bool {
    &&& pointed_at_by_none(sources, page.1)
    &&& forall|k: int|
        0 <= k < sources.len() && nowhere_rendered(pages, (#[trigger] sources[k]).url)
            ==> !targets::is_same_origin(page.1, sources[k].url)
}

/// No page is at the address of the source, nor on its site.
pub open spec fn is_without_page(source: SourceInfo, pages: Seq<Page>) -> bool {
    &&& nowhere_rendered(pages, source.url)
    &&& forall|i: int|
        0 <= i < pages.len() ==> !targets::is_same_origin((#[trigger] pages[i]).1, source.url)
}

proof fn lemma_words(pages: Seq<Page>, sources: Seq<SourceInfo>)
    ensures
        forall|url: Seq<char>| #[trigger]
            targets::rendered(pages, url) == !nowhere_rendered(pages, url),
        forall|url: Seq<char>| #[trigger]
            targets::claimed(sources, url) == !pointed_at_by_none(sources, url),
        forall|page: Page|
            (#[trigger] is_left_over(page, pages, sources)) == !(targets::claimed(sources, page.1)
                || targets::wanted(pages, sources, page.1)),
        forall|s: SourceInfo|
            (#[trigger] is_without_page(s, pages)) == (!targets::rendered(pages, s.url)
                && !targets::site_rendered(pages, s.url)),
{
    assert forall|page: Page|
        (#[trigger] is_left_over(page, pages, sources)) == !(targets::claimed(sources, page.1)
            || targets::wanted(pages, sources, page.1)) by {
        assert(targets::claimed(sources, page.1) == !pointed_at_by_none(sources, page.1));
        assert forall|k: int| 0 <= k < sources.len() implies targets::rendered(
            pages,
            (#[trigger] sources[k]).url,
        ) == !nowhere_rendered(pages, sources[k].url) by {}
    }
}

/// The one page at the address of a source is the source's, whatever other
/// pages and sources there are.
pub proof fn page_at_the_address_is_the_sources(
    pages: Seq<Page>,
    sources: Seq<SourceInfo>,
    want: SourceInfo,
    i: int,
)
    requires
        0 <= i < pages.len(),
        targets::is_same_page(pages[i].1, want.url),
        forall|j: int|
            0 <= j < pages.len() && j != i ==> !targets::is_same_page(
                (#[trigger] pages[j]).1,
                want.url,
            ),
    ensures
        targets::resolution(pages, sources, want) == Resolved::Target(pages[i].0),
{
    sequences::lemma_filter_unique(pages, |t: Page| targets::is_same_page(t.1, want.url), i);
}

/// Two pages at the address of a source cannot be told apart.
pub proof fn two_pages_at_the_address_are_ambiguous(
    pages: Seq<Page>,
    sources: Seq<SourceInfo>,
    want: SourceInfo,
    i: int,
    j: int,
)
    requires
        0 <= i < j < pages.len(),
        targets::is_same_page(pages[i].1, want.url),
        targets::is_same_page(pages[j].1, want.url),
    ensures
        targets::resolution(pages, sources, want) is Ambiguous,
{
    sequences::lemma_filter_two(pages, |t: Page| targets::is_same_page(t.1, want.url), i, j);
}

proof fn lemma_not_at_the_address(pages: Seq<Page>, url: Seq<char>)
    requires
        nowhere_rendered(pages, url),
    ensures
        targets::exact_pages(pages, url).len() == 0,
{
    sequences::lemma_filter_none(pages, |t: Page| targets::is_same_page(t.1, url));
}

/// A source whose page has moved has the one page on its site that no source
/// was pointed at, unless another source there has lost its page too.
pub proof fn moved_page_is_the_sources(
    pages: Seq<Page>,
    sources: Seq<SourceInfo>,
    want: SourceInfo,
    i: int,
)
    requires
        nowhere_rendered(pages, want.url),
        0 <= i < pages.len(),
        is_stray_on_site(pages[i], sources, want.url),
        forall|j: int|
            0 <= j < pages.len() && j != i ==> !is_stray_on_site(
                #[trigger] pages[j],
                sources,
                want.url,
            ),
        forall|k: int|
            0 <= k < sources.len() && is_lost_on_site(#[trigger] sources[k], pages, want.url)
                ==> sources[k].flow_id == want.flow_id && sources[k].block_id == want.block_id,
    ensures
        targets::resolution(pages, sources, want) == Resolved::Target(pages[i].0),
{
    lemma_words(pages, sources);
    lemma_not_at_the_address(pages, want.url);
    let site = |t: Page|
        !targets::claimed(sources, t.1) && targets::is_same_origin(t.1, want.url);
    assert forall|j: int| 0 <= j < pages.len() && j != i implies !site(#[trigger] pages[j]) by {
        assert(!is_stray_on_site(pages[j], sources, want.url));
    }
    sequences::lemma_filter_unique(pages, site, i);
    let rival = |s: SourceInfo|
        !targets::is_source(s, want.flow_id, want.block_id) && !targets::rendered(pages, s.url)
            && targets::is_same_origin(s.url, want.url);
    assert forall|k: int| 0 <= k < sources.len() implies !rival(#[trigger] sources[k]) by {
        if rival(sources[k]) {
            assert(is_lost_on_site(sources[k], pages, want.url));
        }
    }
    sequences::lemma_filter_none(sources, rival);
}

/// With two pages on its site that no source was pointed at, a source without
/// a page of its own cannot be told which is its.
pub proof fn two_moved_pages_are_ambiguous(
    pages: Seq<Page>,
    sources: Seq<SourceInfo>,
    want: SourceInfo,
    i: int,
    j: int,
)
    requires
        nowhere_rendered(pages, want.url),
        0 <= i < j < pages.len(),
        is_stray_on_site(pages[i], sources, want.url),
        is_stray_on_site(pages[j], sources, want.url),
    ensures
        targets::resolution(pages, sources, want) is Ambiguous,
{
    lemma_words(pages, sources);
    lemma_not_at_the_address(pages, want.url);
    let site = |t: Page|
        !targets::claimed(sources, t.1) && targets::is_same_origin(t.1, want.url);
    sequences::lemma_filter_two(pages, site, i, j);
}

/// Two sources of one site that have both lost their page cannot be told which
/// of them has a page there that no source was pointed at.
pub proof fn two_lost_sources_are_ambiguous(
    pages: Seq<Page>,
    sources: Seq<SourceInfo>,
    want: SourceInfo,
    i: int,
    k: int,
)
    requires
        nowhere_rendered(pages, want.url),
        0 <= i < pages.len(),
        is_stray_on_site(pages[i], sources, want.url),
        0 <= k < sources.len(),
        is_lost_on_site(sources[k], pages, want.url),
        sources[k].flow_id != want.flow_id || sources[k].block_id != want.block_id,
    ensures
        targets::resolution(pages, sources, want) is Ambiguous,
{
    lemma_words(pages, sources);
    lemma_not_at_the_address(pages, want.url);
    let site = |t: Page|
        !targets::claimed(sources, t.1) && targets::is_same_origin(t.1, want.url);
    sequences::lemma_filter_keeps_some(pages, site, i);
    let rival = |s: SourceInfo|
        !targets::is_source(s, want.flow_id, want.block_id) && !targets::rendered(pages, s.url)
            && targets::is_same_origin(s.url, want.url);
    sequences::lemma_filter_keeps_some(sources, rival, k);
}

proof fn lemma_none_on_site(pages: Seq<Page>, sources: Seq<SourceInfo>, want: SourceInfo)
    requires
        nowhere_rendered(pages, want.url),
        forall|j: int|
            0 <= j < pages.len() ==> !is_stray_on_site(#[trigger] pages[j], sources, want.url),
    ensures
        targets::exact_pages(pages, want.url).len() == 0,
        targets::site_pages(pages, sources, want.url).len() == 0,
{
    lemma_words(pages, sources);
    lemma_not_at_the_address(pages, want.url);
    let site = |t: Page|
        !targets::claimed(sources, t.1) && targets::is_same_origin(t.1, want.url);
    assert forall|j: int| 0 <= j < pages.len() implies !site(#[trigger] pages[j]) by {
        assert(!is_stray_on_site(pages[j], sources, want.url));
    }
    sequences::lemma_filter_none(pages, site);
}

/// The one page left over belongs to the one source left without any.
pub proof fn last_page_is_the_last_sources(
    pages: Seq<Page>,
    sources: Seq<SourceInfo>,
    i: int,
    k: int,
)
    requires
        0 <= i < pages.len(),
        is_left_over(pages[i], pages, sources),
        forall|j: int|
            0 <= j < pages.len() && j != i ==> !is_left_over(#[trigger] pages[j], pages, sources),
        0 <= k < sources.len(),
        is_without_page(sources[k], pages),
        forall|m: int|
            0 <= m < sources.len() && m != k ==> !is_without_page(#[trigger] sources[m], pages),
    ensures
        targets::resolution(pages, sources, sources[k]) == Resolved::Target(pages[i].0),
{
    let want = sources[k];
    lemma_words(pages, sources);
    assert forall|j: int| 0 <= j < pages.len() implies !is_stray_on_site(
        #[trigger] pages[j],
        sources,
        want.url,
    ) by {
        assert(!targets::is_same_origin(pages[j].1, want.url));
    }
    lemma_none_on_site(pages, sources, want);
    let left = |t: Page|
        !(targets::claimed(sources, t.1) || targets::wanted(pages, sources, t.1));
    assert(left(pages[i])) by {
        assert(is_left_over(pages[i], pages, sources));
    }
    assert forall|j: int| 0 <= j < pages.len() && j != i implies !left(#[trigger] pages[j]) by {
        assert(!is_left_over(pages[j], pages, sources));
    }
    sequences::lemma_filter_unique(pages, left, i);
    let lost = |s: SourceInfo|
        !targets::rendered(pages, s.url) && !targets::site_rendered(pages, s.url);
    assert(lost(sources[k])) by {
        assert(is_without_page(sources[k], pages));
    }
    assert forall|m: int| 0 <= m < sources.len() && m != k implies !lost(#[trigger] sources[m]) by {
        assert(!is_without_page(sources[m], pages));
    }
    sequences::lemma_filter_unique(sources, lost, k);
}

/// Where neither its address nor its site gives a source a page, and more than
/// one page is left over, or none, or more than one source is without any, or
/// the source is not, nothing is known of its page.
pub proof fn guess_is_not_made(
    pages: Seq<Page>,
    sources: Seq<SourceInfo>,
    want: SourceInfo,
    i: int,
    j: int,
)
    requires
        nowhere_rendered(pages, want.url),
        forall|j: int|
            0 <= j < pages.len() ==> !is_stray_on_site(#[trigger] pages[j], sources, want.url),
        forall|k: int|
            0 <= k < sources.len() && (#[trigger] sources[k]).flow_id == want.flow_id
                && sources[k].block_id == want.block_id ==> sources[k] == want,
        ({
            ||| 0 <= i < j < pages.len() && is_left_over(pages[i], pages, sources) && is_left_over(
                pages[j],
                pages,
                sources,
            )
            ||| forall|m: int|
                0 <= m < pages.len() ==> !is_left_over(#[trigger] pages[m], pages, sources)
            ||| 0 <= i < j < sources.len() && is_without_page(sources[i], pages) && is_without_page(
                sources[j],
                pages,
            )
            ||| !is_without_page(want, pages)
        }),
    ensures
        targets::resolution(pages, sources, want) is Unknown,
{
    lemma_words(pages, sources);
    lemma_none_on_site(pages, sources, want);
    let left = |t: Page|
        !(targets::claimed(sources, t.1) || targets::wanted(pages, sources, t.1));
    let lost = |s: SourceInfo|
        !targets::rendered(pages, s.url) && !targets::site_rendered(pages, s.url);
    assert forall|t: Page| left(t) == #[trigger] is_left_over(t, pages, sources) by {}
    assert forall|s: SourceInfo| lost(s) == #[trigger] is_without_page(s, pages) by {}
    if 0 <= i < j < pages.len() && is_left_over(pages[i], pages, sources) && is_left_over(
        pages[j],
        pages,
        sources,
    ) {
        sequences::lemma_filter_two(pages, left, i, j);
    } else if forall|m: int|
        0 <= m < pages.len() ==> !is_left_over(#[trigger] pages[m], pages, sources) {
        assert forall|m: int| 0 <= m < pages.len() implies !left(#[trigger] pages[m]) by {
            assert(!is_left_over(pages[m], pages, sources));
        }
        sequences::lemma_filter_none(pages, left);
    } else if 0 <= i < j < sources.len() && is_without_page(sources[i], pages) && is_without_page(
        sources[j],
        pages,
    ) {
        sequences::lemma_filter_two(sources, lost, i, j);
    } else if targets::homeless(pages, sources).len() == 1 {
        sequences::lemma_filter_element(sources, lost, 0);
        let only = sources.filter(lost)[0];
        assert(is_without_page(only, pages));
        let k = choose|k: int| 0 <= k < sources.len() && #[trigger] sources[k] == only;
        assert(sources[k] == only);
    }
}

// ---------------------------------------------------------------------------
// Links
// ---------------------------------------------------------------------------

proof fn lemma_lookup_at(pages: Seq<Page>, i: int)
    requires
        targets::ids_differ(pages),
        0 <= i < pages.len(),
    ensures
        text::lookup(pages, pages[i].0) == Some(pages[i].1),
{
    text::lemma_lookup_finds(pages, pages[i].0);
    let url = text::lookup(pages, pages[i].0);
    if url is None {
        assert(pages[i].0 != pages[i].0);
    }
    let k = choose|k: int| 0 <= k < pages.len() && #[trigger] pages[k] == (pages[i].0, url->0);
    if k != i {
        assert(pages[k].0 == pages[i].0);
        if k < i {
            assert(pages[k].0 != pages[i].0);
        } else {
            assert(pages[i].0 != pages[k].0);
        }
    }
}

/// A link for a block opens the page that its source resolves to, at the
/// address where that page is now; it is refused as tied where more than one
/// could be, and as not rendering where none is.
pub proof fn block_link_opens_its_page(
    pages: Seq<Page>,
    sources: Seq<SourceInfo>,
    flow_id: u128,
    block_id: Seq<char>,
    k: int,
    i: int,
)
    requires
        targets::ids_differ(pages),
        0 <= k < sources.len(),
        sources[k].flow_id == flow_id,
        sources[k].block_id == block_id,
        forall|m: int|
            0 <= m < k ==> (#[trigger] sources[m]).flow_id != flow_id || sources[m].block_id
                != block_id,
    ensures
        ({
            let found = targets::block_page(Some(pages), sources, flow_id, block_id);
            let own = targets::resolution(pages, sources, sources[k]);
            &&& 0 <= i < pages.len() && own == Resolved::Target(pages[i].0) ==> found == Ok::<
                Page,
                (u16, Seq<char>),
            >(pages[i])
            &&& own is Ambiguous ==> (found matches Err(reply) && reply == (
                409u16,
                "More than one HTML source could be showing this page, so which browser the link would open cannot be decided. Give them different URLs."@,
            ))
            &&& own is Unknown ==> (found matches Err(reply) && reply == (
                404u16,
                "This block is not rendering a page yet - is the flow running?"@,
            ))
        }),
{
    lemma_source_with_id(sources, flow_id, block_id, k);
    if 0 <= i < pages.len() {
        lemma_lookup_at(pages, i);
    }
}

proof fn lemma_source_with_id(
    sources: Seq<SourceInfo>,
    flow_id: u128,
    block_id: Seq<char>,
    k: int,
)
    requires
        0 <= k < sources.len(),
        sources[k].flow_id == flow_id,
        sources[k].block_id == block_id,
        forall|m: int|
            0 <= m < k ==> (#[trigger] sources[m]).flow_id != flow_id || sources[m].block_id
                != block_id,
    ensures
        targets::source_with_id(sources, flow_id, block_id) == Some(sources[k]),
    decreases k,
{
    if k > 0 {
        let rest = sources.skip(1);
        assert(sources[0].flow_id != flow_id || sources[0].block_id != block_id);
        assert forall|m: int| 0 <= m < k - 1 implies (#[trigger] rest[m]).flow_id != flow_id
            || rest[m].block_id != block_id by {
            assert(rest[m] == sources[m + 1]);
        }
        lemma_source_with_id(rest, flow_id, block_id, k - 1);
    }
}

/// No link is minted for a block that is no source, nor before any page is
/// rendered.
pub proof fn no_link_without_source_or_page(
    pages: Seq<Page>,
    sources: Seq<SourceInfo>,
    flow_id: u128,
    block_id: Seq<char>,
    target_id: Seq<char>,
)
    ensures
        (forall|m: int|
            0 <= m < sources.len() ==> (#[trigger] sources[m]).flow_id != flow_id
                || sources[m].block_id != block_id) ==> (targets::block_page(
            Some(pages),
            sources,
            flow_id,
            block_id,
        ) matches Err(reply) && reply == (404u16, "Block not found"@)),
        targets::block_page(None, sources, flow_id, block_id) matches Err(reply) && reply == (
            404u16,
            "No page is being rendered yet - is the flow running?"@,
        ),
        targets::linked_page(None, sources, target_id) matches Err(reply) && reply == (
            404u16,
            "No page is being rendered yet - is the flow running?"@,
        ),
{
    if forall|m: int|
        0 <= m < sources.len() ==> (#[trigger] sources[m]).flow_id != flow_id
            || sources[m].block_id != block_id {
        lemma_no_source_with_id(sources, flow_id, block_id);
    }
}

proof fn lemma_no_source_with_id(sources: Seq<SourceInfo>, flow_id: u128, block_id: Seq<char>)
    requires
        forall|m: int|
            0 <= m < sources.len() ==> (#[trigger] sources[m]).flow_id != flow_id
                || sources[m].block_id != block_id,
    ensures
        targets::source_with_id(sources, flow_id, block_id) is None,
    decreases sources.len(),
{
    if sources.len() > 0 {
        let rest = sources.skip(1);
        assert(sources[0].flow_id != flow_id || sources[0].block_id != block_id);
        assert forall|m: int| 0 <= m < rest.len() implies (#[trigger] rest[m]).flow_id != flow_id
            || rest[m].block_id != block_id by {
            assert(rest[m] == sources[m + 1]);
        }
        lemma_no_source_with_id(rest, flow_id, block_id);
    }
}

/// A link for a page by its id is minted where the page exists and belongs to
/// a source with remote control on. A page that belongs to none is forbidden,
/// and one that does not exist is not found.
pub proof fn page_link_needs_an_open_source(
    pages: Seq<Page>,
    sources: Seq<SourceInfo>,
    i: int,
    target_id: Seq<char>,
)
    requires
        targets::ids_differ(pages),
    ensures
        0 <= i < pages.len() && (exists|k: int|
            0 <= k < sources.len() && (#[trigger] sources[k]).remote_control
                && targets::resolution(pages, sources, sources[k]) == Resolved::Target(pages[i].0))
            ==> targets::linked_page(Some(pages), sources, pages[i].0) == Ok::<
            Page,
            (u16, Seq<char>),
        >(pages[i]),
        0 <= i < pages.len() && (forall|k: int|
            0 <= k < sources.len() && (#[trigger] sources[k]).remote_control
                ==> targets::resolution(pages, sources, sources[k]) != Resolved::Target(
                pages[i].0,
            )) ==> (targets::linked_page(Some(pages), sources, pages[i].0) matches Err(reply)
            && reply == (
            403u16,
            "No HTML source with remote control switched on is rendering this page. Turn on the Remote Control property of the block that renders it to hand out a link."@,
        )),
        (forall|m: int| 0 <= m < pages.len() ==> (#[trigger] pages[m]).0 != target_id) ==> (
        targets::linked_page(Some(pages), sources, target_id) matches Err(reply) && reply == (
            404u16,
            "No such page"@,
        )),
{
    if 0 <= i < pages.len() {
        lemma_lookup_at(pages, i);
    }
    text::lemma_lookup_finds(pages, target_id);
}

// ---------------------------------------------------------------------------
// Where pages and sources come from
// ---------------------------------------------------------------------------

/// A text member of an entry.
pub open spec fn says(entry: JsonTree, name: Seq<char>, value: Seq<char>) -> bool {
    json::member(entry, name) == Some(JsonTree::Text(value))
}

/// A page is what Chromium's list calls a page and gives an id and an address,
/// and nothing else is. What is offered for remote control has that id and
/// that address, and the title that the list gives it.
pub proof fn listed_page_keeps_id_and_address(
    entry: JsonTree,
    id: Seq<char>,
    url: Seq<char>,
    title: Seq<char>,
)
    ensures
        says(entry, "type"@, "page"@) && says(entry, "id"@, id) && says(entry, "url"@, url)
            && access::is_target_id(id) ==> targets::page_of(entry) == Some((id, url)),
        says(entry, "type"@, "page"@) && says(entry, "id"@, id) && says(entry, "url"@, url) && says(
            entry,
            "title"@,
            title,
        ) && access::is_target_id(id) ==> targets::offer_of(entry) == Some((id, title, url)),
        says(entry, "type"@, "page"@) && says(entry, "id"@, id) && access::is_target_id(id)
            && json::member(entry, "title"@) is None && json::member(entry, "url"@) is None
            ==> targets::offer_of(entry) == Some((id, Seq::<char>::empty(), Seq::<char>::empty())),
        !says(entry, "type"@, "page"@) ==> targets::page_of(entry) is None && targets::offer_of(
            entry,
        ) is None,
        says(entry, "id"@, id) && !access::is_target_id(id) ==> targets::page_of(entry) is None
            && targets::offer_of(entry) is None,
        json::member(entry, "id"@) is None ==> targets::page_of(entry) is None
            && targets::offer_of(entry) is None,
        json::member(entry, "url"@) is None ==> targets::page_of(entry) is None,
{
}

/// An HTML input block is a source of its flow, under its own name, pointed at
/// the address set on it, and open to remote control where that is switched on.
/// Any other block is none.
pub proof fn html_block_is_a_source(flow_id: u128, block: BlockInfo, url: Seq<char>)
    ensures
        block.block_definition_id == "builtin.html_input"@ <==> targets::source_of(
            flow_id,
            block,
        ) is Some,
        targets::source_of(flow_id, block) matches Some(s) ==> {
            &&& s.flow_id == flow_id
            &&& s.block_id == block.id
            &&& text::lookup(block.properties, "url"@) == Some(PropertyTree::Text(url))
                && text::trimmed(url).len() > 0 ==> s.url == url
            &&& text::lookup(block.properties, "url"@) is None ==> s.url == "https://example.com"@
            &&& s.remote_control <==> text::lookup(block.properties, "remote_control"@) == Some(
                PropertyTree::Bool(true),
            )
        },
{
}

/// Every HTML input block of every flow is among the sources, and every source
/// is one of them.
pub proof fn sources_are_the_html_blocks(flows: Seq<Flow>)
    ensures
        forall|f: int, b: int|
            0 <= f < flows.len() && 0 <= b < flows[f].blocks.len() && flows[f].blocks[b]@
                .block_definition_id == "builtin.html_input"@ ==> targets::all_sources(
                flows,
            ).contains(
                #[trigger] targets::source_of(flows[f].id, flows[f].blocks[b]@)->0,
            ),
        forall|k: int|
            0 <= k < targets::all_sources(flows).len() ==> exists|f: int, b: int|
                0 <= f < flows.len() && 0 <= b < flows[f].blocks.len() && (
                #[trigger] targets::source_of(flows[f].id, flows[f].blocks[b]@)) == Some(
                    #[trigger] targets::all_sources(flows)[k],
                ),
    decreases flows.len(),
{
    if flows.len() > 0 {
        let init = flows.drop_last();
        let last = flows.last();
        let n = flows.len() - 1;
        sources_are_the_html_blocks(init);
        let before = targets::all_sources(init);
        let added = targets::flow_sources(last);
        let all = targets::all_sources(flows);
        let blocks = flow::block_infos(last.blocks@);
        let pick = |b: BlockInfo| targets::source_of(last.id, b);
        assert forall|f: int, b: int|
            0 <= f < flows.len() && 0 <= b < flows[f].blocks.len() && flows[f].blocks[b]@
                .block_definition_id == "builtin.html_input"@ implies all.contains(
            #[trigger] targets::source_of(flows[f].id, flows[f].blocks[b]@)->0,
        ) by {
            let s = targets::source_of(flows[f].id, flows[f].blocks[b]@)->0;
            if f < n {
                assert(init[f] == flows[f]);
                assert(before.contains(s));
                let k = choose|k: int| 0 <= k < before.len() && before[k] == s;
                assert(all[k] == s);
            } else {
                assert(blocks[b] == flows[f].blocks[b]@);
                sequences::lemma_filter_map_holds(blocks, pick, b, blocks.len() as int);
                assert(blocks.take(blocks.len() as int) =~= blocks);
                let k = choose|k: int| 0 <= k < added.len() && added[k] == s;
                assert(all[before.len() + k] == s);
            }
        }
        assert forall|k: int| 0 <= k < all.len() implies exists|f: int, b: int|
            0 <= f < flows.len() && 0 <= b < flows[f].blocks.len() && (
            #[trigger] targets::source_of(flows[f].id, flows[f].blocks[b]@)) == Some(
                #[trigger] all[k],
            ) by {
            if k < before.len() {
                assert(all[k] == before[k]);
                let (f, b) = choose|f: int, b: int|
                    0 <= f < init.len() && 0 <= b < init[f].blocks.len() && (
                    #[trigger] targets::source_of(init[f].id, init[f].blocks[b]@)) == Some(
                        before[k],
                    );
                assert(flows[f] == init[f]);
                assert(targets::source_of(flows[f].id, flows[f].blocks[b]@) == Some(all[k]));
            } else {
                let s = added[k - before.len()];
                assert(added.contains(s));
                blocks.lemma_filter_map_contains(pick, s);
                let block = choose|block: BlockInfo|
                    blocks.contains(block) && pick(block) == Some(s);
                let b = choose|b: int| 0 <= b < blocks.len() && blocks[b] == block;
                assert(targets::source_of(flows[n].id, flows[n].blocks[b]@) == Some(all[k]));
            }
        }
    }
}

/// Before the pages are looked at, a link for a block is refused where there is
/// no such flow or block, where the block is no HTML input, and where its
/// remote control is off, and nowhere else.
pub proof fn only_open_html_blocks_get_links(flow: Flow, block_id: Seq<char>, b: int)
    requires
        0 <= b < flow.blocks.len(),
        flow.blocks[b]@.id == block_id,
        forall|m: int| 0 <= m < b ==> (#[trigger] flow.blocks[m])@.id != block_id,
    ensures
        ({
            let block = flow.blocks[b]@;
            let html = block.block_definition_id == "builtin.html_input"@;
            let open = text::lookup(block.properties, "remote_control"@) == Some(
                PropertyTree::Bool(true),
            );
            let refusal = targets::block_refusal(Some(flow), block_id);
            &&& refusal is None <==> html && open
            &&& html && !open ==> (refusal matches Some(reply) && reply == (
                403u16,
                "This HTML source has remote control switched off. Turn on its Remote Control property to hand out a link."@,
            ))
            &&& !html ==> (refusal matches Some(reply) && reply == (
                404u16,
                "Only an HTML source can be controlled remotely"@,
            ))
        }),
        targets::block_refusal(None, block_id) matches Some(reply) && reply == (
            404u16,
            "Flow not found"@,
        ),
{
    let infos = flow::block_infos(flow.blocks@);
    let entries = infos.map_values(|b: BlockInfo| (b.id, b));
    assert forall|m: int| 0 <= m < b implies (#[trigger] entries[m]).0 != block_id by {
        assert(flow.blocks[m]@.id != block_id);
    }
    assert(entries[b] == (block_id, flow.blocks[b]@));
    lemma_lookup_first(entries, block_id, b);
}

proof fn lemma_lookup_first<V>(entries: Seq<(Seq<char>, V)>, name: Seq<char>, i: int)
    requires
        0 <= i < entries.len(),
        entries[i].0 == name,
        forall|m: int| 0 <= m < i ==> (#[trigger] entries[m]).0 != name,
    ensures
        text::lookup(entries, name) == Some(entries[i].1),
    decreases i,
{
    if i > 0 {
        let rest = entries.skip(1);
        assert(entries[0].0 != name);
        assert forall|m: int| 0 <= m < i - 1 implies (#[trigger] rest[m]).0 != name by {
            assert(rest[m] == entries[m + 1]);
        }
        lemma_lookup_first(rest, name, i - 1);
    }
}

/// A link is not minted for a block that the flow does not have.
pub proof fn missing_block_gets_no_link(flow: Flow, block_id: Seq<char>)
    requires
        forall|m: int| 0 <= m < flow.blocks.len() ==> (#[trigger] flow.blocks[m])@.id != block_id,
    ensures
        targets::block_refusal(Some(flow), block_id) matches Some(reply) && reply == (
            404u16,
            "Block not found"@,
        ),
{
    let infos = flow::block_infos(flow.blocks@);
    let entries = infos.map_values(|b: BlockInfo| (b.id, b));
    assert forall|m: int| 0 <= m < entries.len() implies (#[trigger] entries[m]).0 != block_id by {
        assert(flow.blocks[m]@.id != block_id);
    }
    text::lemma_lookup_finds(entries, block_id);
}

} // verus!
