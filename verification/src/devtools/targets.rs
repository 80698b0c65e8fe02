//! Which page Chromium renders for which HTML source.

use crate::blocks::html_input;
use crate::devtools::access;
use crate::flow;
use crate::flow::{BlockInfo, Flow};
use crate::http::{reply, Reply, ReplyInfo};
use crate::json::{self, Json, JsonTree};
use crate::sequences;
use crate::text;
use vstd::prelude::*;

verus! {

/// One page Chromium is rendering right now.
pub struct PageTarget {
    pub id: String,
    pub url: String,
}

/// A page: its id and its address.
pub type Page = (Seq<char>, Seq<char>);

impl View for PageTarget {
    type V = Page;

    open spec fn view(&self) -> Page {
        (self.id@, self.url@)
    }
}

/// One HTML source in this instance, and the page it was pointed at.
pub struct HtmlSource {
    pub flow_id: u128,
    pub block_id: String,
    /// The page the operator pointed the block at, not necessarily the one it
    /// is showing now.
    pub url: String,
    pub remote_control: bool,
}

/// What an HTML source is.
pub struct SourceInfo {
    pub flow_id: u128,
    pub block_id: Seq<char>,
    pub url: Seq<char>,
    pub remote_control: bool,
}

impl View for HtmlSource {
    type V = SourceInfo;

    open spec fn view(&self) -> SourceInfo {
        SourceInfo {
            flow_id: self.flow_id,
            block_id: self.block_id@,
            url: self.url@,
            remote_control: self.remote_control,
        }
    }
}

/// What asking "which page is this block rendering?" can come back with.
#[derive(Debug, PartialEq, Eq)]
pub enum Resolution {
    /// Exactly one page can be this block's.
    Target(String),
    /// More than one could be, so picking would be guessing.
    Ambiguous,
    /// None of the pages can be this block's.
    Unknown,
}

/// What a resolution says.
pub enum Resolved {
    Target(Seq<char>),
    Ambiguous,
    Unknown,
}

impl View for Resolution {
    type V = Resolved;

    open spec fn view(&self) -> Resolved {
        match self {
            Resolution::Target(id) => Resolved::Target(id@),
            Resolution::Ambiguous => Resolved::Ambiguous,
            Resolution::Unknown => Resolved::Unknown,
        }
    }
}

pub open spec fn pages(v: Seq<PageTarget>) -> Seq<Page> {
    v.map_values(|t: PageTarget| t@)
}

pub open spec fn source_infos(v: Seq<HtmlSource>) -> Seq<SourceInfo> {
    v.map_values(|s: HtmlSource| s@)
}

// ---------------------------------------------------------------------------
// Addresses
// ---------------------------------------------------------------------------

/// Two addresses that differ at most in slashes at the end.
pub open spec fn is_same_page(a: Seq<char>, b: Seq<char>) -> bool {
    text::trim_end_of(a, '/') == text::trim_end_of(b, '/')
}

/// Whether two addresses name the same page.
pub fn same_page(a: &str, b: &str) -> (r: bool)
    ensures
        r == is_same_page(a@, b@),
{
    text::trim_end_char(a, '/') == text::trim_end_char(b, '/')
}

/// How many characters from `i` on come before a slash, a question mark or a
/// hash.
pub open spec fn authority_end(s: Seq<char>, i: int) -> int
    decreases s.len() - i,
{
    if i >= s.len() {
        s.len() as int
    } else if s[i] == '/' || s[i] == '?' || s[i] == '#' {
        i
    } else {
        authority_end(s, i + 1)
    }
}

/// The `scheme://host:port` of an address that has one.
pub open spec fn url_origin(url: Seq<char>) -> Option<Seq<char>> {
    match text::find_from(url, "://"@, 0) {
        Some(i) => if i > 0 {
            Some(url.take(authority_end(url, i + 3)))
        } else {
            None
        },
        None => None,
    }
}

/// The `scheme://host:port` an address belongs to, when it has one.
pub fn origin(url: &str) -> (r: Option<String>)
    ensures
        r matches Some(o) ==> url_origin(url@) == Some(o@),
        r is None ==> url_origin(url@) is None,
{
    let v = text::chars_of(url);
    let mark = text::chars_of("://");
    match text::find_part(&v, &mark) {
        Some(i) => {
            if i == 0 {
                return None;
            }
            proof {
                reveal_strlit("://");
            }
            let mut end: usize = i + 3;
            while end < v.len() && v[end] != '/' && v[end] != '?' && v[end] != '#'
                invariant
                    i + 3 <= end <= v.len(),
                    authority_end(v@, end as int) == authority_end(v@, i + 3),
                decreases v.len() - end,
            {
                end += 1;
            }
            let o = text::text_between(&v, 0, end);
            proof {
                assert(o@ =~= url@.take(end as int));
            }
            Some(o)
        },
        None => None,
    }
}

/// Both addresses have an origin, and it is the same but for the case of
/// letters.
pub open spec fn is_same_origin(a: Seq<char>, b: Seq<char>) -> bool {
    match (url_origin(a), url_origin(b)) {
        (Some(x), Some(y)) => text::equal_ignoring_ascii_case(x, y),
        _ => false,
    }
}

/// Same site, whatever path either of them is on now.
pub fn same_origin(a: &str, b: &str) -> (r: bool)
    ensures
        r == is_same_origin(a@, b@),
{
    match (origin(a), origin(b)) {
        (Some(x), Some(y)) => text::same_ignoring_ascii_case(x.as_str(), y.as_str()),
        _ => false,
    }
}

/// Being the same page goes both ways.
pub proof fn same_page_is_symmetric(a: Seq<char>, b: Seq<char>)
    ensures
        is_same_page(a, b) == is_same_page(b, a),
{
}

/// A slash at the end does not make it a different page.
pub proof fn trailing_slash_is_the_same_page(url: Seq<char>)
    ensures
        is_same_page(url, url.push('/')),
{
    assert(url.push('/').drop_last() =~= url);
}

// ---------------------------------------------------------------------------
// Resolution
// ---------------------------------------------------------------------------

/// Some page is still at the address.
pub open spec fn rendered(targets: Seq<Page>, url: Seq<char>) -> bool {
    exists|i: int| 0 <= i < targets.len() && is_same_page((#[trigger] targets[i]).1, url)
}

/// Some page is on the address' site.
pub open spec fn site_rendered(targets: Seq<Page>, url: Seq<char>) -> bool {
    exists|i: int| 0 <= i < targets.len() && is_same_origin((#[trigger] targets[i]).1, url)
}

/// Some source was pointed at exactly this address.
pub open spec fn claimed(sources: Seq<SourceInfo>, url: Seq<char>) -> bool {
    exists|i: int| 0 <= i < sources.len() && is_same_page(url, (#[trigger] sources[i]).url)
}

/// Some source that has no page of its own was pointed into this address'
/// site.
pub open spec fn wanted(targets: Seq<Page>, sources: Seq<SourceInfo>, url: Seq<char>) -> bool {
    exists|i: int|
        0 <= i < sources.len() && !rendered(targets, (#[trigger] sources[i]).url)
            && is_same_origin(url, sources[i].url)
}

pub open spec fn is_source(s: SourceInfo, flow_id: u128, block_id: Seq<char>) -> bool {
    s.flow_id == flow_id && s.block_id == block_id
}

/// The pages still at the address.
pub open spec fn exact_pages(targets: Seq<Page>, url: Seq<char>) -> Seq<Page> {
    targets.filter(|t: Page| is_same_page(t.1, url))
}

/// The pages on the address' site that no source was pointed at.
pub open spec fn site_pages(
    targets: Seq<Page>,
    sources: Seq<SourceInfo>,
    url: Seq<char>,
) -> Seq<Page> {
    targets.filter(|t: Page| !claimed(sources, t.1) && is_same_origin(t.1, url))
}

/// The other sources pointed into the same site that have no page of their
/// own.
pub open spec fn rivals(
    targets: Seq<Page>,
    sources: Seq<SourceInfo>,
    want: SourceInfo,
) -> Seq<SourceInfo> {
    sources.filter(
        |s: SourceInfo|
            !is_source(s, want.flow_id, want.block_id) && !rendered(targets, s.url)
                && is_same_origin(s.url, want.url),
    )
}

/// The pages that could be nobody's.
pub open spec fn unclaimed_pages(targets: Seq<Page>, sources: Seq<SourceInfo>) -> Seq<Page> {
    targets.filter(|t: Page| !(claimed(sources, t.1) || wanted(targets, sources, t.1)))
}

/// The sources without any page that could be theirs.
pub open spec fn homeless(targets: Seq<Page>, sources: Seq<SourceInfo>) -> Seq<SourceInfo> {
    sources.filter(|s: SourceInfo| !rendered(targets, s.url) && !site_rendered(targets, s.url))
}

/// Which page belongs to one HTML source. The match widens in steps, and each
/// step answers only where there is one possible answer:
///
/// 1. the page still at the address the source names;
/// 2. a page elsewhere on the same site, where no other source lays claim to
///    it;
/// 3. the one page left over, where this is the one source left over.
pub open spec fn resolution(
    targets: Seq<Page>,
    sources: Seq<SourceInfo>,
    want: SourceInfo,
) -> Resolved {
    let exact = exact_pages(targets, want.url);
    let site = site_pages(targets, sources, want.url);
    let left = unclaimed_pages(targets, sources);
    let lost = homeless(targets, sources);
    if exact.len() == 1 {
        Resolved::Target(exact[0].0)
    } else if exact.len() > 1 {
        Resolved::Ambiguous
    } else if site.len() > 1 || (site.len() == 1 && rivals(targets, sources, want).len() > 0) {
        Resolved::Ambiguous
    } else if site.len() == 1 {
        Resolved::Target(site[0].0)
    } else if left.len() == 1 && lost.len() == 1 && is_source(
        lost[0],
        want.flow_id,
        want.block_id,
    ) {
        Resolved::Target(left[0].0)
    } else {
        Resolved::Unknown
    }
}

impl HtmlSource {
    pub fn is(&self, flow_id: u128, block_id: &str) -> (r: bool)
        ensures
            r == is_source(self@, flow_id, block_id@),
    {
        self.flow_id == flow_id && text::same(self.block_id.as_str(), block_id)
    }
}

fn any_page_at(targets: &Vec<PageTarget>, url: &str) -> (r: bool)
    ensures
        r == rendered(pages(targets@), url@),
{
    let mut i: usize = 0;
    let ghost all = pages(targets@);
    while i < targets.len()
        invariant
            i <= targets.len(),
            all == pages(targets@),
            forall|j: int| 0 <= j < i ==> !is_same_page((#[trigger] all[j]).1, url@),
        decreases targets.len() - i,
    {
        if same_page(targets[i].url.as_str(), url) {
            assert(is_same_page(all[i as int].1, url@));
            return true;
        }
        assert(all[i as int] == targets@[i as int]@);
        i += 1;
    }
    false
}

fn any_page_on_site(targets: &Vec<PageTarget>, url: &str) -> (r: bool)
    ensures
        r == site_rendered(pages(targets@), url@),
{
    let mut i: usize = 0;
    let ghost all = pages(targets@);
    while i < targets.len()
        invariant
            i <= targets.len(),
            all == pages(targets@),
            forall|j: int| 0 <= j < i ==> !is_same_origin((#[trigger] all[j]).1, url@),
        decreases targets.len() - i,
    {
        if same_origin(targets[i].url.as_str(), url) {
            assert(is_same_origin(all[i as int].1, url@));
            return true;
        }
        assert(all[i as int] == targets@[i as int]@);
        i += 1;
    }
    false
}

fn claimed_exactly(sources: &Vec<HtmlSource>, url: &str) -> (r: bool)
    ensures
        r == claimed(source_infos(sources@), url@),
{
    let mut i: usize = 0;
    let ghost all = source_infos(sources@);
    while i < sources.len()
        invariant
            i <= sources.len(),
            all == source_infos(sources@),
            forall|j: int| 0 <= j < i ==> !is_same_page(url@, (#[trigger] all[j]).url),
        decreases sources.len() - i,
    {
        if same_page(url, sources[i].url.as_str()) {
            assert(is_same_page(url@, all[i as int].url));
            return true;
        }
        assert(all[i as int] == sources@[i as int]@);
        i += 1;
    }
    false
}

fn wanted_by_site(targets: &Vec<PageTarget>, sources: &Vec<HtmlSource>, url: &str) -> (r: bool)
    ensures
        r == wanted(pages(targets@), source_infos(sources@), url@),
{
    let mut i: usize = 0;
    let ghost all = source_infos(sources@);
    let ghost seen = pages(targets@);
    while i < sources.len()
        invariant
            i <= sources.len(),
            all == source_infos(sources@),
            seen == pages(targets@),
            forall|j: int|
                0 <= j < i ==> rendered(seen, (#[trigger] all[j]).url) || !is_same_origin(
                    url@,
                    all[j].url,
                ),
        decreases sources.len() - i,
    {
        assert(all[i as int] == sources@[i as int]@);
        if !any_page_at(targets, sources[i].url.as_str()) && same_origin(
            url,
            sources[i].url.as_str(),
        ) {
            return true;
        }
        i += 1;
    }
    false
}

/// The only page still at the address; how many there are in all.
fn count_exact(targets: &Vec<PageTarget>, url: &str) -> (r: (usize, usize))
    ensures
        r.0 == exact_pages(pages(targets@), url@).len(),
        r.0 > 0 ==> r.1 < targets.len() && exact_pages(pages(targets@), url@)[0]
            == targets@[r.1 as int]@,
{
    let ghost all = pages(targets@);
    let ghost keep = |t: Page| is_same_page(t.1, url@);
    let mut count: usize = 0;
    let mut first: usize = 0;
    let mut i: usize = 0;
    proof {
        reveal(Seq::filter);
        assert(all.take(0) =~= Seq::<Page>::empty());
    }
    while i < targets.len()
        invariant
            count <= i <= targets.len(),
            all == pages(targets@),
            keep == (|t: Page| is_same_page(t.1, url@)),
            count == all.take(i as int).filter(keep).len(),
            count > 0 ==> first < targets.len() && all.take(i as int).filter(keep)[0]
                == targets@[first as int]@,
        decreases targets.len() - i,
    {
        proof {
            sequences::lemma_filter_take(all, keep, i as int);
        }
        if same_page(targets[i].url.as_str(), url) {
            if count == 0 {
                first = i;
            }
            count += 1;
        }
        i += 1;
    }
    proof {
        assert(all.take(all.len() as int) =~= all);
    }
    (count, first)
}

fn count_site(targets: &Vec<PageTarget>, sources: &Vec<HtmlSource>, url: &str) -> (r: (
    usize,
    usize,
))
    ensures
        r.0 == site_pages(pages(targets@), source_infos(sources@), url@).len(),
        r.0 > 0 ==> r.1 < targets.len() && site_pages(
            pages(targets@),
            source_infos(sources@),
            url@,
        )[0] == targets@[r.1 as int]@,
{
    let ghost all = pages(targets@);
    let ghost infos = source_infos(sources@);
    let ghost keep = |t: Page| !claimed(infos, t.1) && is_same_origin(t.1, url@);
    let mut count: usize = 0;
    let mut first: usize = 0;
    let mut i: usize = 0;
    proof {
        reveal(Seq::filter);
        assert(all.take(0) =~= Seq::<Page>::empty());
    }
    while i < targets.len()
        invariant
            count <= i <= targets.len(),
            all == pages(targets@),
            infos == source_infos(sources@),
            keep == (|t: Page| !claimed(infos, t.1) && is_same_origin(t.1, url@)),
            count == all.take(i as int).filter(keep).len(),
            count > 0 ==> first < targets.len() && all.take(i as int).filter(keep)[0]
                == targets@[first as int]@,
        decreases targets.len() - i,
    {
        proof {
            sequences::lemma_filter_take(all, keep, i as int);
        }
        if !claimed_exactly(sources, targets[i].url.as_str()) && same_origin(
            targets[i].url.as_str(),
            url,
        ) {
            if count == 0 {
                first = i;
            }
            count += 1;
        }
        i += 1;
    }
    proof {
        assert(all.take(all.len() as int) =~= all);
    }
    (count, first)
}

fn count_rivals(targets: &Vec<PageTarget>, sources: &Vec<HtmlSource>, want: &HtmlSource) -> (r:
    usize)
    ensures
        r == rivals(pages(targets@), source_infos(sources@), want@).len(),
{
    let ghost seen = pages(targets@);
    let ghost all = source_infos(sources@);
    let ghost keep = |s: SourceInfo|
        !is_source(s, want@.flow_id, want@.block_id) && !rendered(seen, s.url) && is_same_origin(
            s.url,
            want@.url,
        );
    let mut count: usize = 0;
    let mut i: usize = 0;
    proof {
        reveal(Seq::filter);
        assert(all.take(0) =~= Seq::<SourceInfo>::empty());
    }
    while i < sources.len()
        invariant
            count <= i <= sources.len(),
            seen == pages(targets@),
            all == source_infos(sources@),
            keep == (|s: SourceInfo|
                !is_source(s, want@.flow_id, want@.block_id) && !rendered(seen, s.url)
                    && is_same_origin(s.url, want@.url)),
            count == all.take(i as int).filter(keep).len(),
        decreases sources.len() - i,
    {
        proof {
            sequences::lemma_filter_take(all, keep, i as int);
        }
        if !sources[i].is(want.flow_id, want.block_id.as_str()) && !any_page_at(
            targets,
            sources[i].url.as_str(),
        ) && same_origin(sources[i].url.as_str(), want.url.as_str()) {
            count += 1;
        }
        i += 1;
    }
    proof {
        assert(all.take(all.len() as int) =~= all);
    }
    count
}

fn count_unclaimed(targets: &Vec<PageTarget>, sources: &Vec<HtmlSource>) -> (r: (usize, usize))
    ensures
        r.0 == unclaimed_pages(pages(targets@), source_infos(sources@)).len(),
        r.0 > 0 ==> r.1 < targets.len() && unclaimed_pages(
            pages(targets@),
            source_infos(sources@),
        )[0] == targets@[r.1 as int]@,
{
    let ghost all = pages(targets@);
    let ghost infos = source_infos(sources@);
    let ghost keep = |t: Page| !(claimed(infos, t.1) || wanted(all, infos, t.1));
    let mut count: usize = 0;
    let mut first: usize = 0;
    let mut i: usize = 0;
    proof {
        reveal(Seq::filter);
        assert(all.take(0) =~= Seq::<Page>::empty());
    }
    while i < targets.len()
        invariant
            count <= i <= targets.len(),
            all == pages(targets@),
            infos == source_infos(sources@),
            keep == (|t: Page| !(claimed(infos, t.1) || wanted(all, infos, t.1))),
            count == all.take(i as int).filter(keep).len(),
            count > 0 ==> first < targets.len() && all.take(i as int).filter(keep)[0]
                == targets@[first as int]@,
        decreases targets.len() - i,
    {
        proof {
            sequences::lemma_filter_take(all, keep, i as int);
        }
        if !(claimed_exactly(sources, targets[i].url.as_str()) || wanted_by_site(
            targets,
            sources,
            targets[i].url.as_str(),
        )) {
            if count == 0 {
                first = i;
            }
            count += 1;
        }
        i += 1;
    }
    proof {
        assert(all.take(all.len() as int) =~= all);
    }
    (count, first)
}

fn count_homeless(targets: &Vec<PageTarget>, sources: &Vec<HtmlSource>) -> (r: (usize, usize))
    ensures
        r.0 == homeless(pages(targets@), source_infos(sources@)).len(),
        r.0 > 0 ==> r.1 < sources.len() && homeless(
            pages(targets@),
            source_infos(sources@),
        )[0] == sources@[r.1 as int]@,
{
    let ghost seen = pages(targets@);
    let ghost all = source_infos(sources@);
    let ghost keep = |s: SourceInfo| !rendered(seen, s.url) && !site_rendered(seen, s.url);
    let mut count: usize = 0;
    let mut first: usize = 0;
    let mut i: usize = 0;
    proof {
        reveal(Seq::filter);
        assert(all.take(0) =~= Seq::<SourceInfo>::empty());
    }
    while i < sources.len()
        invariant
            count <= i <= sources.len(),
            seen == pages(targets@),
            all == source_infos(sources@),
            keep == (|s: SourceInfo| !rendered(seen, s.url) && !site_rendered(seen, s.url)),
            count == all.take(i as int).filter(keep).len(),
            count > 0 ==> first < sources.len() && all.take(i as int).filter(keep)[0]
                == sources@[first as int]@,
        decreases sources.len() - i,
    {
        proof {
            sequences::lemma_filter_take(all, keep, i as int);
        }
        if !any_page_at(targets, sources[i].url.as_str()) && !any_page_on_site(
            targets,
            sources[i].url.as_str(),
        ) {
            if count == 0 {
                first = i;
            }
            count += 1;
        }
        i += 1;
    }
    proof {
        assert(all.take(all.len() as int) =~= all);
    }
    (count, first)
}

/// Decides which Chromium page belongs to one HTML source.
pub fn resolve_target(
    targets: &Vec<PageTarget>,
    sources: &Vec<HtmlSource>,
    want: &HtmlSource,
) -> (r: Resolution)
    ensures
        r@ == resolution(pages(targets@), source_infos(sources@), want@),
{
    let exact = count_exact(targets, want.url.as_str());
    if exact.0 == 1 {
        return Resolution::Target(targets[exact.1].id.clone());
    }
    if exact.0 > 1 {
        return Resolution::Ambiguous;
    }
    let site = count_site(targets, sources, want.url.as_str());
    if site.0 > 1 || (site.0 == 1 && count_rivals(targets, sources, want) > 0) {
        return Resolution::Ambiguous;
    }
    if site.0 == 1 {
        return Resolution::Target(targets[site.1].id.clone());
    }
    let left = count_unclaimed(targets, sources);
    let lost = count_homeless(targets, sources);
    if left.0 == 1 && lost.0 == 1 && sources[lost.1].is(want.flow_id, want.block_id.as_str()) {
        return Resolution::Target(targets[left.1].id.clone());
    }
    Resolution::Unknown
}

/// An answer is always one of the pages being rendered: the one at the
/// source's own address, or one that no source was pointed at.
pub proof fn resolution_is_never_another_sources_page(
    targets: Seq<Page>,
    sources: Seq<SourceInfo>,
    want: SourceInfo,
)
    ensures
        resolution(targets, sources, want) matches Resolved::Target(id) ==> exists|i: int|
            0 <= i < targets.len() && (#[trigger] targets[i]).0 == id && (is_same_page(
                targets[i].1,
                want.url,
            ) || !claimed(sources, targets[i].1)),
{
    let exact = |t: Page| is_same_page(t.1, want.url);
    let site = |t: Page| !claimed(sources, t.1) && is_same_origin(t.1, want.url);
    let left = |t: Page| !(claimed(sources, t.1) || wanted(targets, sources, t.1));
    if targets.filter(exact).len() > 0 {
        sequences::lemma_filter_element(targets, exact, 0);
    }
    if targets.filter(site).len() > 0 {
        sequences::lemma_filter_element(targets, site, 0);
    }
    if targets.filter(left).len() > 0 {
        sequences::lemma_filter_element(targets, left, 0);
    }
}

/// No two pages have the same id.
pub open spec fn ids_differ(targets: Seq<Page>) -> bool {
    forall|i: int, j: int|
        0 <= i < j < targets.len() ==> (#[trigger] targets[i]).0 != (#[trigger] targets[j]).0
}

proof fn lemma_same_origin(a: Seq<char>, b: Seq<char>, c: Seq<char>)
    ensures
        is_same_origin(a, b) ==> is_same_origin(b, a),
        is_same_origin(a, b) && is_same_origin(a, c) ==> is_same_origin(b, c),
{
    if is_same_origin(a, b) && is_same_origin(a, c) {
        let (x, y, z) = (url_origin(a)->0, url_origin(b)->0, url_origin(c)->0);
        assert forall|i: int| 0 <= i < y.len() implies text::ascii_lower(#[trigger] y[i])
            == text::ascii_lower(z[i]) by {
            assert(text::ascii_lower(x[i]) == text::ascii_lower(y[i]));
            assert(text::ascii_lower(x[i]) == text::ascii_lower(z[i]));
        }
    }
}

/// No page is handed to two sources that are both away from the address they
/// were given: where either could have it, neither gets it.
pub proof fn no_page_is_handed_to_two_strays(
    targets: Seq<Page>,
    sources: Seq<SourceInfo>,
    a: SourceInfo,
    b: SourceInfo,
    id: Seq<char>,
)
    requires
        ids_differ(targets),
        sources.contains(a),
        sources.contains(b),
        !is_source(a, b.flow_id, b.block_id),
        !rendered(targets, a.url),
        !rendered(targets, b.url),
    ensures
        !(resolution(targets, sources, a) == Resolved::Target(id) && resolution(
            targets,
            sources,
            b,
        ) == Resolved::Target(id)),
{
    if resolution(targets, sources, a) == Resolved::Target(id) && resolution(targets, sources, b)
        == Resolved::Target(id) {
        lemma_no_exact_page(targets, a.url);
        lemma_no_exact_page(targets, b.url);
        let site_a = |t: Page| !claimed(sources, t.1) && is_same_origin(t.1, a.url);
        let site_b = |t: Page| !claimed(sources, t.1) && is_same_origin(t.1, b.url);
        let left = |t: Page| !(claimed(sources, t.1) || wanted(targets, sources, t.1));
        let ka = choose|i: int| 0 <= i < sources.len() && #[trigger] sources[i] == a;
        let kb = choose|i: int| 0 <= i < sources.len() && #[trigger] sources[i] == b;
        let by_site_a = targets.filter(site_a).len() == 1;
        let by_site_b = targets.filter(site_b).len() == 1;
        if by_site_a {
            sequences::lemma_filter_element(targets, site_a, 0);
        }
        if by_site_b {
            sequences::lemma_filter_element(targets, site_b, 0);
        }
        if !by_site_a || !by_site_b {
            sequences::lemma_filter_element(targets, left, 0);
        }
        if by_site_a && by_site_b {
            let t = targets.filter(site_a)[0];
            lemma_one_page(targets, t, targets.filter(site_b)[0]);
            lemma_same_origin(t.1, b.url, a.url);
            let rival = |s: SourceInfo|
                !is_source(s, a.flow_id, a.block_id) && !rendered(targets, s.url)
                    && is_same_origin(s.url, a.url);
            assert(rival(sources[kb]));
            sequences::lemma_filter_keeps_some(sources, rival, kb);
        } else if by_site_a {
            let t = targets.filter(site_a)[0];
            lemma_one_page(targets, t, targets.filter(left)[0]);
            assert(!rendered(targets, sources[ka].url) && is_same_origin(t.1, sources[ka].url));
            assert(wanted(targets, sources, t.1));
        } else if by_site_b {
            let t = targets.filter(site_b)[0];
            lemma_one_page(targets, t, targets.filter(left)[0]);
            assert(!rendered(targets, sources[kb].url) && is_same_origin(t.1, sources[kb].url));
            assert(wanted(targets, sources, t.1));
        }
    }
}

proof fn lemma_one_page(targets: Seq<Page>, a: Page, b: Page)
    requires
        ids_differ(targets),
        exists|i: int| 0 <= i < targets.len() && #[trigger] targets[i] == a,
        exists|i: int| 0 <= i < targets.len() && #[trigger] targets[i] == b,
        a.0 == b.0,
    ensures
        a == b,
{
    let i = choose|i: int| 0 <= i < targets.len() && #[trigger] targets[i] == a;
    let j = choose|j: int| 0 <= j < targets.len() && #[trigger] targets[j] == b;
    assert(i == j);
}

proof fn lemma_no_exact_page(targets: Seq<Page>, url: Seq<char>)
    requires
        !rendered(targets, url),
    ensures
        exact_pages(targets, url).len() == 0,
{
    let exact = |t: Page| is_same_page(t.1, url);
    if targets.filter(exact).len() > 0 {
        sequences::lemma_filter_element(targets, exact, 0);
        let i = choose|i: int|
            0 <= i < targets.len() && #[trigger] targets[i] == targets.filter(exact)[0];
        assert(is_same_page(targets[i].1, url));
    }
}

/// With no page rendered, nothing is resolved.
pub proof fn nothing_rendered_is_unknown(sources: Seq<SourceInfo>, want: SourceInfo)
    ensures
        resolution(Seq::empty(), sources, want) is Unknown,
{
    reveal(Seq::filter);
}

// ---------------------------------------------------------------------------
// Chromium's list of pages
// ---------------------------------------------------------------------------

pub open spec fn trees(v: Seq<Json>) -> Seq<JsonTree> {
    v.map_values(|j: Json| j@)
}

pub open spec fn member_text(tree: JsonTree, name: Seq<char>) -> Option<Seq<char>> {
    json::text_value(json::member(tree, name))
}

/// The entry describes a page, rather than a worker or an extension.
pub open spec fn is_page(entry: JsonTree) -> bool {
    member_text(entry, "type"@) == Some("page"@)
}

/// The page that an entry of Chromium's list describes, if it describes one
/// that may be used.
pub open spec fn page_of(entry: JsonTree) -> Option<Page> {
    match (member_text(entry, "id"@), member_text(entry, "url"@)) {
        (Some(id), Some(url)) => if is_page(entry) && access::is_target_id(id) {
            Some((id, url))
        } else {
            None
        },
        _ => None,
    }
}

/// A page offered for remote control.
pub struct DevToolsTarget {
    pub id: String,
    pub title: String,
    pub url: String,
}

/// A page offered for remote control: id, title and address.
pub type Offer = (Seq<char>, Seq<char>, Seq<char>);

impl View for DevToolsTarget {
    type V = Offer;

    open spec fn view(&self) -> Offer {
        (self.id@, self.title@, self.url@)
    }
}

pub open spec fn text_or_empty(s: Option<Seq<char>>) -> Seq<char> {
    match s {
        Some(s) => s,
        None => Seq::empty(),
    }
}

/// The offer that an entry of Chromium's list makes.
pub open spec fn offer_of(entry: JsonTree) -> Option<Offer> {
    match member_text(entry, "id"@) {
        Some(id) => if is_page(entry) && access::is_target_id(id) {
            Some(
                (
                    id,
                    text_or_empty(member_text(entry, "title"@)),
                    text_or_empty(member_text(entry, "url"@)),
                ),
            )
        } else {
            None
        },
        None => None,
    }
}

fn text_member(entry: &Json, name: &str) -> (r: Option<String>)
    ensures
        r matches Some(s) ==> member_text(entry@, name@) == Some(s@),
        r is None ==> member_text(entry@, name@) is None,
{
    match entry.get(name) {
        Some(j) => match j.as_str() {
            Some(s) => Some(s.to_owned()),
            None => None,
        },
        None => None,
    }
}

fn entry_is_page(entry: &Json) -> (r: bool)
    ensures
        r == is_page(entry@),
{
    match text_member(entry, "type") {
        Some(kind) => text::same(kind.as_str(), "page"),
        None => false,
    }
}

/// Reads the list of pages as Chromium sends it.
pub fn parse_target_list(body: &str) -> (r: Option<Vec<Json>>)
    ensures
        match r {
            Some(entries) => json::json_document(body@) == Some(JsonTree::Array(trees(entries@))),
            None => !(json::json_document(body@) matches Some(JsonTree::Array(_))),
        },
{
    match json::parse(body) {
        Some(Json::Array(entries)) => {
            proof {
                let j = Json::Array(entries);
                assert(j@->Array_0 =~= trees(entries@));
            }
            Some(entries)
        },
        _ => None,
    }
}

/// The pages that exist right now.
pub fn page_targets(entries: &Vec<Json>) -> (r: Vec<PageTarget>)
    ensures
        pages(r@) == trees(entries@).filter_map(|e: JsonTree| page_of(e)),
{
    let ghost all = trees(entries@);
    let ghost pick = |e: JsonTree| page_of(e);
    let mut out: Vec<PageTarget> = Vec::new();
    let mut i: usize = 0;
    proof {
        assert(all.take(0) =~= Seq::<JsonTree>::empty());
        assert(all.take(0).filter_map(pick) =~= Seq::<Page>::empty());
        assert(pages(out@) =~= Seq::<Page>::empty());
    }
    while i < entries.len()
        invariant
            i <= entries.len(),
            all == trees(entries@),
            pick == (|e: JsonTree| page_of(e)),
            pages(out@) == all.take(i as int).filter_map(pick),
        decreases entries.len() - i,
    {
        let entry = &entries[i];
        proof {
            all.lemma_filter_map_take_succ(pick, i as int);
            assert(all[i as int] == entry@);
        }
        let ghost before = pages(out@);
        match (text_member(entry, "id"), text_member(entry, "url")) {
            (Some(id), Some(url)) => {
                if entry_is_page(entry) && access::valid_target_id(id.as_str()) {
                    out.push(PageTarget { id, url });
                    assert(pages(out@) =~= before + seq![(id@, url@)]);
                } else {
                    assert(before =~= before + Seq::<Page>::empty());
                }
            },
            _ => {
                assert(before =~= before + Seq::<Page>::empty());
            },
        }
        i += 1;
    }
    proof {
        assert(all.take(all.len() as int) =~= all);
    }
    out
}

pub open spec fn offers(v: Seq<DevToolsTarget>) -> Seq<Offer> {
    v.map_values(|t: DevToolsTarget| t@)
}

/// The pages to offer for remote control.
pub fn offered_targets(entries: &Vec<Json>) -> (r: Vec<DevToolsTarget>)
    ensures
        offers(r@) == trees(entries@).filter_map(|e: JsonTree| offer_of(e)),
{
    let ghost all = trees(entries@);
    let ghost pick = |e: JsonTree| offer_of(e);
    let mut out: Vec<DevToolsTarget> = Vec::new();
    let mut i: usize = 0;
    proof {
        assert(all.take(0) =~= Seq::<JsonTree>::empty());
        assert(all.take(0).filter_map(pick) =~= Seq::<Offer>::empty());
        assert(offers(out@) =~= Seq::<Offer>::empty());
    }
    while i < entries.len()
        invariant
            i <= entries.len(),
            all == trees(entries@),
            pick == (|e: JsonTree| offer_of(e)),
            offers(out@) == all.take(i as int).filter_map(pick),
        decreases entries.len() - i,
    {
        let entry = &entries[i];
        proof {
            all.lemma_filter_map_take_succ(pick, i as int);
            assert(all[i as int] == entry@);
        }
        let ghost before = offers(out@);
        match text_member(entry, "id") {
            Some(id) => {
                if entry_is_page(entry) && access::valid_target_id(id.as_str()) {
                    let title = match text_member(entry, "title") {
                        Some(s) => s,
                        None => String::new(),
                    };
                    let url = match text_member(entry, "url") {
                        Some(s) => s,
                        None => String::new(),
                    };
                    let offer = DevToolsTarget { id, title, url };
                    let ghost shown = offer@;
                    out.push(offer);
                    assert(offers(out@) =~= before + seq![shown]);
                } else {
                    assert(before =~= before + Seq::<Offer>::empty());
                }
            },
            None => {
                assert(before =~= before + Seq::<Offer>::empty());
            },
        }
        i += 1;
    }
    proof {
        assert(all.take(all.len() as int) =~= all);
    }
    out
}

// ---------------------------------------------------------------------------
// The sources of the instance
// ---------------------------------------------------------------------------

pub open spec fn is_html_source(block: BlockInfo) -> bool {
    block.block_definition_id == html_input::BLOCK_ID@
}

pub open spec fn source_of(flow_id: u128, block: BlockInfo) -> Option<SourceInfo> {
    if is_html_source(block) {
        Some(
            SourceInfo {
                flow_id,
                block_id: block.id,
                url: html_input::page_url(block.properties),
                remote_control: html_input::remote_control_allowed(block.properties),
            },
        )
    } else {
        None
    }
}

pub open spec fn flow_sources(flow: Flow) -> Seq<SourceInfo> {
    flow::block_infos(flow.blocks@).filter_map(|b: BlockInfo| source_of(flow.id, b))
}

/// The HTML sources of the flows, flow by flow.
pub open spec fn all_sources(flows: Seq<Flow>) -> Seq<SourceInfo>
    decreases flows.len(),
{
    if flows.len() == 0 {
        Seq::empty()
    } else {
        all_sources(flows.drop_last()) + flow_sources(flows.last())
    }
}

fn add_flow_sources(flow: &Flow, out: &mut Vec<HtmlSource>)
    ensures
        source_infos(final(out)@) == source_infos(old(out)@) + flow_sources(*flow),
{
    let ghost before = source_infos(out@);
    let ghost all = flow::block_infos(flow.blocks@);
    let ghost pick = |b: BlockInfo| source_of(flow.id, b);
    let mut i: usize = 0;
    proof {
        assert(all.take(0) =~= Seq::<BlockInfo>::empty());
        assert(all.take(0).filter_map(pick) =~= Seq::<SourceInfo>::empty());
        assert(before =~= before + all.take(0).filter_map(pick));
    }
    while i < flow.blocks.len()
        invariant
            i <= flow.blocks.len(),
            all == flow::block_infos(flow.blocks@),
            pick == (|b: BlockInfo| source_of(flow.id, b)),
            source_infos(out@) == before + all.take(i as int).filter_map(pick),
        decreases flow.blocks.len() - i,
    {
        let block = &flow.blocks[i];
        proof {
            all.lemma_filter_map_take_succ(pick, i as int);
            assert(all[i as int] == block@);
        }
        let ghost so_far = source_infos(out@);
        if text::same(block.block_definition_id.as_str(), html_input::BLOCK_ID) {
            let source = HtmlSource {
                flow_id: flow.id,
                block_id: block.id.clone(),
                url: html_input::url(&block.properties),
                remote_control: html_input::remote_control_enabled(&block.properties),
            };
            let ghost shown = source@;
            out.push(source);
            proof {
                assert(source_infos(out@) =~= so_far.push(shown));
                assert(source_infos(out@) =~= before + all.take(i + 1).filter_map(pick));
            }
        } else {
            assert(so_far =~= before + all.take(i + 1).filter_map(pick));
        }
        i += 1;
    }
    proof {
        assert(all.take(all.len() as int) =~= all);
    }
}

/// Every HTML source in the instance, because one browser serves them all.
pub fn html_sources(flows: &Vec<Flow>) -> (r: Vec<HtmlSource>)
    ensures
        source_infos(r@) == all_sources(flows@),
{
    let mut out: Vec<HtmlSource> = Vec::new();
    let mut i: usize = 0;
    proof {
        assert(flows@.take(0) =~= Seq::<Flow>::empty());
        assert(source_infos(out@) =~= Seq::<SourceInfo>::empty());
    }
    while i < flows.len()
        invariant
            i <= flows.len(),
            source_infos(out@) == all_sources(flows@.take(i as int)),
        decreases flows.len() - i,
    {
        proof {
            assert(flows@.take(i + 1).drop_last() =~= flows@.take(i as int));
            assert(flows@.take(i + 1).last() == flows@[i as int]);
        }
        add_flow_sources(&flows[i], &mut out);
        i += 1;
    }
    proof {
        assert(flows@.take(flows@.len() as int) =~= flows@);
    }
    out
}

// ---------------------------------------------------------------------------
// What a request for a link is answered with
// ---------------------------------------------------------------------------

pub const NOTHING_RENDERED: &'static str = "No page is being rendered yet - is the flow running?";

pub const NO_SUCH_PAGE: &'static str = "No such page";

pub const SWITCHED_OFF_PAGE: &'static str =
    "No HTML source with remote control switched on is rendering this page. Turn on the Remote Control property of the block that renders it to hand out a link.";

pub const BLOCK_NOT_FOUND: &'static str = "Block not found";

pub const FLOW_NOT_FOUND: &'static str = "Flow not found";

pub const NOT_AN_HTML_SOURCE: &'static str = "Only an HTML source can be controlled remotely";

pub const SWITCHED_OFF_BLOCK: &'static str =
    "This HTML source has remote control switched off. Turn on its Remote Control property to hand out a link.";

pub const NOT_RENDERING: &'static str =
    "This block is not rendering a page yet - is the flow running?";

pub const TIED: &'static str =
    "More than one HTML source could be showing this page, so which browser the link would open cannot be decided. Give them different URLs.";

/// A source with remote control on renders the page.
pub open spec fn page_is_open(
    targets: Seq<Page>,
    sources: Seq<SourceInfo>,
    id: Seq<char>,
) -> bool {
    exists|i: int|
        0 <= i < sources.len() && (#[trigger] sources[i]).remote_control && resolution(
            targets,
            sources,
            sources[i],
        ) == Resolved::Target(id)
}

/// The page that a link for a target id is minted for, or why there is none.
pub open spec fn linked_page(
    targets: Option<Seq<Page>>,
    sources: Seq<SourceInfo>,
    target_id: Seq<char>,
) -> Result<Page, ReplyInfo> {
    match targets {
        None => Err((404, NOTHING_RENDERED@)),
        Some(targets) => match text::lookup(targets, target_id) {
            None => Err((404, NO_SUCH_PAGE@)),
            Some(url) => if page_is_open(targets, sources, target_id) {
                Ok((target_id, url))
            } else {
                Err((403, SWITCHED_OFF_PAGE@))
            },
        },
    }
}

pub open spec fn optional_pages(targets: Option<Vec<PageTarget>>) -> Option<Seq<Page>> {
    match targets {
        Some(v) => Some(pages(v@)),
        None => None,
    }
}

pub open spec fn page_or_reply(r: Result<PageTarget, Reply>) -> Result<Page, ReplyInfo> {
    match r {
        Ok(page) => Ok(page@),
        Err(reply) => Err(reply@),
    }
}

/// The address of the page with an id.
fn url_of(targets: &Vec<PageTarget>, id: &str) -> (r: Option<String>)
    ensures
        r matches Some(url) ==> text::lookup(pages(targets@), id@) == Some(url@),
        r is None ==> text::lookup(pages(targets@), id@) is None,
{
    let ghost all = pages(targets@);
    let mut i: usize = 0;
    proof {
        assert(all.skip(0) =~= all);
    }
    while i < targets.len()
        invariant
            i <= targets.len(),
            all == pages(targets@),
            text::lookup(all.skip(i as int), id@) == text::lookup(all, id@),
        decreases targets.len() - i,
    {
        proof {
            text::lemma_lookup_skip(all, id@, i as int);
        }
        if text::same(targets[i].id.as_str(), id) {
            return Some(targets[i].url.clone());
        }
        i += 1;
    }
    None
}

fn page_opened_by_source(
    targets: &Vec<PageTarget>,
    sources: &Vec<HtmlSource>,
    target_id: &str,
) -> (r: bool)
    ensures
        r == page_is_open(pages(targets@), source_infos(sources@), target_id@),
{
    let ghost seen = pages(targets@);
    let ghost all = source_infos(sources@);
    let mut i: usize = 0;
    while i < sources.len()
        invariant
            i <= sources.len(),
            seen == pages(targets@),
            all == source_infos(sources@),
            forall|j: int|
                0 <= j < i ==> !((#[trigger] all[j]).remote_control && resolution(seen, all, all[j])
                    == Resolved::Target(target_id@)),
        decreases sources.len() - i,
    {
        assert(all[i as int] == sources@[i as int]@);
        if sources[i].remote_control {
            match resolve_target(targets, sources, &sources[i]) {
                Resolution::Target(found) => {
                    if text::same(found.as_str(), target_id) {
                        return true;
                    }
                },
                _ => {},
            }
        }
        i += 1;
    }
    false
}

/// The page that a link for a target id is minted for. Naming the page itself
/// does not get around the Remote Control switch of the block that renders it.
pub fn link_target(
    targets: &Option<Vec<PageTarget>>,
    sources: &Vec<HtmlSource>,
    target_id: &str,
) -> (r: Result<PageTarget, Reply>)
    ensures
        page_or_reply(r) == linked_page(
            optional_pages(*targets),
            source_infos(sources@),
            target_id@,
        ),
{
    match targets {
        None => Err(reply(404, NOTHING_RENDERED)),
        Some(targets) => match url_of(targets, target_id) {
            None => Err(reply(404, NO_SUCH_PAGE)),
            Some(url) => if page_opened_by_source(targets, sources, target_id) {
                Ok(PageTarget { id: target_id.to_owned(), url })
            } else {
                Err(reply(403, SWITCHED_OFF_PAGE))
            },
        },
    }
}

/// The block of a flow with an id.
pub open spec fn block_with_id(blocks: Seq<BlockInfo>, id: Seq<char>) -> Option<BlockInfo> {
    text::lookup(blocks.map_values(|b: BlockInfo| (b.id, b)), id)
}

/// Why no link may be minted for a block of a flow, before the pages are
/// looked at.
pub open spec fn block_refusal(flow: Option<Flow>, block_id: Seq<char>) -> Option<ReplyInfo> {
    match flow {
        None => Some((404, FLOW_NOT_FOUND@)),
        Some(flow) => match block_with_id(flow::block_infos(flow.blocks@), block_id) {
            None => Some((404, BLOCK_NOT_FOUND@)),
            Some(block) => if !is_html_source(block) {
                Some((404, NOT_AN_HTML_SOURCE@))
            } else if !html_input::remote_control_allowed(block.properties) {
                Some((403, SWITCHED_OFF_BLOCK@))
            } else {
                None
            },
        },
    }
}

/// The position of the block with an id.
fn position_of_block(flow: &Flow, block_id: &str) -> (r: Option<usize>)
    ensures
        r matches Some(i) ==> i < flow.blocks.len() && block_with_id(
            flow::block_infos(flow.blocks@),
            block_id@,
        ) == Some(flow.blocks@[i as int]@),
        r is None ==> block_with_id(flow::block_infos(flow.blocks@), block_id@) is None,
{
    let ghost all = flow::block_infos(flow.blocks@).map_values(|b: BlockInfo| (b.id, b));
    let mut i: usize = 0;
    proof {
        assert(all.skip(0) =~= all);
    }
    while i < flow.blocks.len()
        invariant
            i <= flow.blocks.len(),
            all == flow::block_infos(flow.blocks@).map_values(|b: BlockInfo| (b.id, b)),
            text::lookup(all.skip(i as int), block_id@) == text::lookup(all, block_id@),
        decreases flow.blocks.len() - i,
    {
        proof {
            text::lemma_lookup_skip(all, block_id@, i as int);
            assert(all[i as int] == (flow.blocks@[i as int]@.id, flow.blocks@[i as int]@));
        }
        if text::same(flow.blocks[i].id.as_str(), block_id) {
            return Some(i);
        }
        i += 1;
    }
    None
}

/// Whether a link may be minted for a block of a flow, as far as the flow
/// says.
pub fn check_block(flow: &Option<Flow>, block_id: &str) -> (r: Option<Reply>)
    ensures
        (match r {
            Some(reply) => Some(reply@),
            None => None,
        }) == block_refusal(*flow, block_id@),
{
    match flow {
        None => Some(reply(404, FLOW_NOT_FOUND)),
        Some(flow) => match position_of_block(flow, block_id) {
            None => Some(reply(404, BLOCK_NOT_FOUND)),
            Some(i) => {
                let block = &flow.blocks[i];
                if !text::same(block.block_definition_id.as_str(), html_input::BLOCK_ID) {
                    Some(reply(404, NOT_AN_HTML_SOURCE))
                } else if !html_input::remote_control_enabled(&block.properties) {
                    Some(reply(403, SWITCHED_OFF_BLOCK))
                } else {
                    None
                }
            },
        },
    }
}

/// The source that a block of a flow is.
pub open spec fn source_with_id(
    sources: Seq<SourceInfo>,
    flow_id: u128,
    block_id: Seq<char>,
) -> Option<SourceInfo>
    decreases sources.len(),
{
    if sources.len() == 0 {
        None
    } else if is_source(sources[0], flow_id, block_id) {
        Some(sources[0])
    } else {
        source_with_id(sources.skip(1), flow_id, block_id)
    }
}

/// The page that a link for a block is minted for, or why there is none.
pub open spec fn block_page(
    targets: Option<Seq<Page>>,
    sources: Seq<SourceInfo>,
    flow_id: u128,
    block_id: Seq<char>,
) -> Result<Page, ReplyInfo> {
    match targets {
        None => Err((404, NOTHING_RENDERED@)),
        Some(targets) => match source_with_id(sources, flow_id, block_id) {
            None => Err((404, BLOCK_NOT_FOUND@)),
            Some(want) => match resolution(targets, sources, want) {
                Resolved::Target(id) => Ok(
                    (
                        id,
                        match text::lookup(targets, id) {
                            Some(url) => url,
                            None => want.url,
                        },
                    ),
                ),
                Resolved::Unknown => Err((404, NOT_RENDERING@)),
                Resolved::Ambiguous => Err((409, TIED@)),
            },
        },
    }
}

fn position_of_source(sources: &Vec<HtmlSource>, flow_id: u128, block_id: &str) -> (r: Option<
    usize,
>)
    ensures
        r matches Some(i) ==> i < sources.len() && source_with_id(
            source_infos(sources@),
            flow_id,
            block_id@,
        ) == Some(sources@[i as int]@),
        r is None ==> source_with_id(source_infos(sources@), flow_id, block_id@) is None,
{
    let ghost all = source_infos(sources@);
    let mut i: usize = 0;
    proof {
        assert(all.skip(0) =~= all);
    }
    while i < sources.len()
        invariant
            i <= sources.len(),
            all == source_infos(sources@),
            source_with_id(all.skip(i as int), flow_id, block_id@) == source_with_id(
                all,
                flow_id,
                block_id@,
            ),
        decreases sources.len() - i,
    {
        proof {
            assert(all.skip(i as int).skip(1) =~= all.skip(i + 1));
            assert(all.skip(i as int)[0] == sources@[i as int]@);
        }
        if sources[i].is(flow_id, block_id) {
            return Some(i);
        }
        i += 1;
    }
    None
}

/// The page that a link for a block is minted for. Two blocks that cannot be
/// told apart are refused with a reason rather than guessed between.
pub fn block_link_target(
    targets: &Option<Vec<PageTarget>>,
    sources: &Vec<HtmlSource>,
    flow_id: u128,
    block_id: &str,
) -> (r: Result<PageTarget, Reply>)
    ensures
        page_or_reply(r) == block_page(
            optional_pages(*targets),
            source_infos(sources@),
            flow_id,
            block_id@,
        ),
{
    match targets {
        None => Err(reply(404, NOTHING_RENDERED)),
        Some(targets) => match position_of_source(sources, flow_id, block_id) {
            None => Err(reply(404, BLOCK_NOT_FOUND)),
            Some(i) => match resolve_target(targets, sources, &sources[i]) {
                Resolution::Target(id) => {
                    let url = match url_of(targets, id.as_str()) {
                        Some(url) => url,
                        None => sources[i].url.clone(),
                    };
                    Ok(PageTarget { id, url })
                },
                Resolution::Unknown => Err(reply(404, NOT_RENDERING)),
                Resolution::Ambiguous => Err(reply(409, TIED)),
            },
        },
    }
}

// ---------------------------------------------------------------------------
// The two ways to name a page
// ---------------------------------------------------------------------------

proof fn lemma_found_source(sources: Seq<SourceInfo>, flow_id: u128, block_id: Seq<char>)
    ensures
        source_with_id(sources, flow_id, block_id) matches Some(want) ==> exists|i: int|
            0 <= i < sources.len() && #[trigger] sources[i] == want,
    decreases sources.len(),
{
    if sources.len() > 0 && !is_source(sources[0], flow_id, block_id) {
        let rest = sources.skip(1);
        lemma_found_source(rest, flow_id, block_id);
        if let Some(want) = source_with_id(rest, flow_id, block_id) {
            let i = choose|i: int| 0 <= i < rest.len() && #[trigger] rest[i] == want;
            assert(sources[i + 1] == want);
        }
    }
}

proof fn lemma_resolved_page_is_there(
    targets: Seq<Page>,
    sources: Seq<SourceInfo>,
    want: SourceInfo,
)
    ensures
        resolution(targets, sources, want) matches Resolved::Target(id) ==> text::lookup(
            targets,
            id,
        ) is Some,
{
    if let Resolved::Target(id) = resolution(targets, sources, want) {
        resolution_is_never_another_sources_page(targets, sources, want);
        text::lemma_lookup_finds(targets, id);
    }
}

/// Naming a page by its block and naming it by its target id do not disagree:
/// a page that a link for a block with remote control on is minted for is one
/// that a link for the page itself is minted for.
pub proof fn both_names_open_the_same_page(
    targets: Seq<Page>,
    sources: Seq<SourceInfo>,
    flow_id: u128,
    block_id: Seq<char>,
)
    requires
        source_with_id(sources, flow_id, block_id) matches Some(want) && want.remote_control,
        block_page(Some(targets), sources, flow_id, block_id) is Ok,
    ensures
        linked_page(
            Some(targets),
            sources,
            block_page(Some(targets), sources, flow_id, block_id)->Ok_0.0,
        ) == block_page(Some(targets), sources, flow_id, block_id),
{
    let want = source_with_id(sources, flow_id, block_id)->0;
    lemma_found_source(sources, flow_id, block_id);
    lemma_resolved_page_is_there(targets, sources, want);
    let i = choose|i: int| 0 <= i < sources.len() && #[trigger] sources[i] == want;
    assert(sources[i].remote_control);
}

/// A page that only sources with remote control off resolve to is opened under
/// no name.
pub proof fn switched_off_pages_stay_closed(
    targets: Seq<Page>,
    sources: Seq<SourceInfo>,
    target_id: Seq<char>,
)
    requires
        forall|i: int|
            0 <= i < sources.len() && (#[trigger] sources[i]).remote_control ==> resolution(
                targets,
                sources,
                sources[i],
            ) != Resolved::Target(target_id),
    ensures
        linked_page(Some(targets), sources, target_id) is Err,
{
}

} // verus!
