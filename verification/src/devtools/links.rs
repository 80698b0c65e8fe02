//! The table of remote control links: minting, using, listing and revoking
//! them.
//!
//! Time is in milliseconds on a clock that only moves forward.

use crate::devtools::access;
use crate::ids;
use crate::text;
use vstd::prelude::*;

verus! {

/// How long a link survives without being used, in milliseconds.
pub const LINK_TTL: u64 = 1_800_000;

/// Where the DevTools endpoint lives, from this instance's configuration.
#[derive(Clone, Copy, Debug, PartialEq, Eq, Structural)]
pub struct DevToolsConfig {
    /// Chromium's remote debugging port, or `None` when the operator has not
    /// enabled remote control.
    pub debug_port: Option<u16>,
    /// Whether this instance terminates TLS itself.
    pub tls: bool,
    /// Hand out the DevTools application, with the protocol unfiltered,
    /// instead of the remote control page.
    pub full_devtools: bool,
}

/// One minted link.
pub struct Link {
    /// A name for the link that is safe to list, log and hand to a client.
    pub id: String,
    /// The page that the key opens onto.
    pub target_id: String,
    /// The address the page had when the link was minted.
    pub target_url: String,
    /// When the key dies if nobody uses it before then.
    pub expires: u64,
}

/// What a link is.
pub struct LinkInfo {
    pub id: Seq<char>,
    pub target_id: Seq<char>,
    pub target_url: Seq<char>,
    pub expires: u64,
}

impl View for Link {
    type V = LinkInfo;

    open spec fn view(&self) -> LinkInfo {
        LinkInfo {
            id: self.id@,
            target_id: self.target_id@,
            target_url: self.target_url@,
            expires: self.expires,
        }
    }
}

/// A link as it is listed. The key is not part of it.
pub struct DevToolsLinkSummary {
    pub id: String,
    pub target_url: String,
    pub expires_in_seconds: u64,
}

/// What a listed link says: its name, its page's address, and the seconds it
/// has left.
pub type Summary = (Seq<char>, Seq<char>, u64);

impl View for DevToolsLinkSummary {
    type V = Summary;

    open spec fn view(&self) -> Summary {
        (self.id@, self.target_url@, self.expires_in_seconds)
    }
}

/// What a caller gets back when a link is minted: the credential, and the
/// name for it that is no secret.
pub struct MintedLink {
    pub key: String,
    pub id: String,
}

/// Links by key.
pub type LinkTable = Seq<(Seq<char>, LinkInfo)>;

/// The live links, and the configuration they are minted against.
pub struct DevToolsState {
    pub config: DevToolsConfig,
    /// The links by key. No key occurs twice.
    pub links: Vec<(String, Link)>,
    /// The names of the links that have died since this list was last taken.
    /// Any session still open on one of them has to end.
    pub ended: Vec<String>,
}

/// The links that have time left.
pub open spec fn live(table: LinkTable, now: u64) -> LinkTable {
    table.filter(|e: (Seq<char>, LinkInfo)| e.1.expires > now)
}

/// The names of the links that have run out of time.
pub open spec fn expired_ids(table: LinkTable, now: u64) -> Seq<Seq<char>> {
    table.filter(|e: (Seq<char>, LinkInfo)| !(e.1.expires > now)).map_values(
        |e: (Seq<char>, LinkInfo)| e.1.id,
    )
}

pub open spec fn ids(table: LinkTable) -> Seq<Seq<char>> {
    table.map_values(|e: (Seq<char>, LinkInfo)| e.1.id)
}

pub open spec fn keys_differ(table: LinkTable) -> bool {
    forall|i: int, j: int|
        0 <= i < j < table.len() ==> (#[trigger] table[i]).0 != (#[trigger] table[j]).0
}

/// The table with another link under a key.
pub open spec fn with_link(table: LinkTable, key: Seq<char>, link: LinkInfo) -> LinkTable {
    table.map_values(
        |e: (Seq<char>, LinkInfo)|
            if e.0 == key {
                (key, link)
            } else {
                e
            },
    )
}

/// The links that end when one is minted under a key: those that have expired,
/// and the one that the key led to.
pub open spec fn ended_by_minting(table: LinkTable, key: Seq<char>, now: u64) -> Seq<Seq<char>> {
    expired_ids(table, now) + match text::lookup(live(table, now), key) {
        Some(link) => seq![link.id],
        None => Seq::empty(),
    }
}

/// The table after a link is put under a key, in place of any that was there.
pub open spec fn inserted(table: LinkTable, key: Seq<char>, link: LinkInfo) -> LinkTable {
    match text::lookup(table, key) {
        Some(_) => with_link(table, key, link),
        None => table.push((key, link)),
    }
}

/// A link whose time starts again.
pub open spec fn renewed(link: LinkInfo, now: u64) -> LinkInfo {
    LinkInfo { expires: (now + LINK_TTL) as u64, ..link }
}

/// The position of the first link with a name.
pub open spec fn position_of_id(table: LinkTable, id: Seq<char>) -> Option<int>
    decreases table.len(),
{
    if table.len() == 0 {
        None
    } else if table[0].1.id == id {
        Some(0)
    } else {
        match position_of_id(table.skip(1), id) {
            Some(i) => Some(i + 1),
            None => None,
        }
    }
}

/// What can be done to the table.
pub enum Action {
    /// A link is minted under a key; its time starts then.
    Mint(Seq<char>, LinkInfo),
    /// A key is used.
    Use(Seq<char>),
    /// The link with a name is revoked.
    Revoke(Seq<char>),
    RevokeAll,
    /// The table is swept, as it is when the links are listed.
    Sweep,
}

/// The table after something is done to it at a time.
pub open spec fn stepped(table: LinkTable, action: Action, now: u64) -> LinkTable {
    let left = live(table, now);
    match action {
        Action::Mint(key, link) => inserted(left, key, renewed(link, now)),
        Action::Use(key) => match text::lookup(left, key) {
            Some(link) => with_link(left, key, renewed(link, now)),
            None => left,
        },
        Action::Revoke(id) => match position_of_id(left, id) {
            Some(i) => left.remove(i),
            None => left,
        },
        Action::RevokeAll => Seq::empty(),
        Action::Sweep => left,
    }
}

/// The names of the links that end when something is done to the table.
pub open spec fn told(table: LinkTable, action: Action, now: u64) -> Seq<Seq<char>> {
    match action {
        Action::Mint(key, _) => ended_by_minting(table, key, now),
        Action::Use(_) | Action::Sweep => expired_ids(table, now),
        Action::Revoke(id) => if position_of_id(live(table, now), id) is Some {
            expired_ids(table, now) + seq![id]
        } else {
            expired_ids(table, now)
        },
        Action::RevokeAll => ids(table),
    }
}

/// The table after a number of things are done to it, each at its time.
pub open spec fn after_all(table: LinkTable, actions: Seq<(Action, u64)>) -> LinkTable
    decreases actions.len(),
{
    if actions.len() == 0 {
        table
    } else {
        stepped(after_all(table, actions.drop_last()), actions.last().0, actions.last().1)
    }
}

/// When the time of a link last started, if it still has some: it was minted at
/// `minted`, and each use of its key starts its time again, unless it came too
/// late or the link was revoked before.
pub open spec fn last_started(
    key: Seq<char>,
    id: Seq<char>,
    minted: u64,
    actions: Seq<(Action, u64)>,
) -> Option<u64>
    decreases actions.len(),
{
    if actions.len() == 0 {
        Some(minted)
    } else {
        let (action, now) = actions.last();
        match last_started(key, id, minted, actions.drop_last()) {
            None => None,
            Some(started) => if now >= started + LINK_TTL {
                None
            } else {
                match action {
                    Action::Use(k) => if k == key {
                        Some(now)
                    } else {
                        Some(started)
                    },
                    Action::Revoke(name) => if name == id {
                        None
                    } else {
                        Some(started)
                    },
                    Action::RevokeAll => None,
                    Action::Mint(_, _) | Action::Sweep => Some(started),
                }
            },
        }
    }
}

/// Nothing that is done mints a link under a key, or with a name.
pub open spec fn mints_neither(
    actions: Seq<(Action, u64)>,
    key: Seq<char>,
    id: Seq<char>,
) -> bool {
    forall|i: int|
        0 <= i < actions.len() ==> ((#[trigger] actions[i]).0 matches Action::Mint(k, link) ==> k
            != key && link.id != id)
}

/// A link that starts at any of the times can run its full time on the clock.
pub open spec fn times_fit(actions: Seq<(Action, u64)>) -> bool {
    forall|i: int| 0 <= i < actions.len() ==> (#[trigger] actions[i]).1 + LINK_TTL <= u64::MAX
}

/// Only the link under a key has a name.
pub open spec fn only_under(table: LinkTable, key: Seq<char>, id: Seq<char>) -> bool {
    forall|i: int|
        0 <= i < table.len() ==> ((#[trigger] table[i]).1.id == id ==> table[i].0 == key)
}

pub open spec fn summary_of(link: LinkInfo, now: u64) -> Summary {
    (
        link.id,
        link.target_url,
        if link.expires > now {
            ((link.expires - now) / 1000) as u64
        } else {
            0
        },
    )
}

pub open spec fn summaries(table: LinkTable, now: u64) -> Seq<Summary> {
    table.map_values(|e: (Seq<char>, LinkInfo)| summary_of(e.1, now))
}

pub open spec fn summary_views(v: Seq<DevToolsLinkSummary>) -> Seq<Summary> {
    v.map_values(|s: DevToolsLinkSummary| s@)
}

/// Links in order, with one more behind those that do not outlive it.
pub open spec fn placed(sorted: LinkTable, entry: (Seq<char>, LinkInfo)) -> LinkTable
    decreases sorted.len(),
{
    if sorted.len() == 0 || sorted.last().1.expires <= entry.1.expires {
        sorted.push(entry)
    } else {
        placed(sorted.drop_last(), entry).push(sorted.last())
    }
}

/// The links in the order in which they expire; those that expire together stay
/// in the order of the table.
pub open spec fn by_expiry(table: LinkTable) -> LinkTable
    decreases table.len(),
{
    if table.len() == 0 {
        Seq::empty()
    } else {
        placed(by_expiry(table.drop_last()), table.last())
    }
}

/// The links at some positions of a table.
pub open spec fn links_at(table: LinkTable, positions: Seq<usize>) -> LinkTable {
    positions.map_values(|k: usize| table[k as int])
}

/// Every link expires no later than those behind it.
pub open spec fn in_expiry_order(s: LinkTable) -> bool {
    forall|i: int, j: int|
        0 <= i < j < s.len() ==> (#[trigger] s[i]).1.expires <= (#[trigger] s[j]).1.expires
}

impl Link {
    fn duplicate(&self) -> (r: Link)
        ensures
            r@ == self@,
    {
        Link {
            id: self.id.clone(),
            target_id: self.target_id.clone(),
            target_url: self.target_url.clone(),
            expires: self.expires,
        }
    }

    /// The link as it is listed at a time.
    pub fn summary(&self, now: u64) -> (r: DevToolsLinkSummary)
        ensures
            r@ == summary_of(self@, now),
    {
        let left: u64 = if self.expires > now {
            (self.expires - now) / 1000
        } else {
            0
        };
        DevToolsLinkSummary {
            id: self.id.clone(),
            target_url: self.target_url.clone(),
            expires_in_seconds: left,
        }
    }
}

impl DevToolsState {
    /// The links by key.
    pub open spec fn table(self) -> LinkTable {
        self.links@.map_values(|e: (String, Link)| (e.0@, e.1@))
    }

    pub open spec fn ended_ids(self) -> Seq<Seq<char>> {
        text::texts(self.ended@)
    }

    pub open spec fn well_formed(self) -> bool {
        keys_differ(self.table())
    }

    pub fn new(config: DevToolsConfig) -> (r: DevToolsState)
        ensures
            r.well_formed(),
            r.config == config,
            r.table() == Seq::<(Seq<char>, LinkInfo)>::empty(),
            r.ended_ids() == Seq::<Seq<char>>::empty(),
    {
        let r = DevToolsState { config, links: Vec::new(), ended: Vec::new() };
        proof {
            assert(r.table() =~= Seq::<(Seq<char>, LinkInfo)>::empty());
            assert(r.ended_ids() =~= Seq::<Seq<char>>::empty());
        }
        r
    }

    /// Drops every link that has run out of time.
    pub fn sweep(&mut self, now: u64)
        requires
            old(self).well_formed(),
        ensures
            final(self).well_formed(),
            final(self).config == old(self).config,
            final(self).table() == live(old(self).table(), now),
            final(self).ended_ids() == old(self).ended_ids() + expired_ids(
                old(self).table(),
                now,
            ),
    {
        let ghost table = self.table();
        let ghost told = self.ended_ids();
        let ghost alive = |e: (Seq<char>, LinkInfo)| e.1.expires > now;
        let ghost dead = |e: (Seq<char>, LinkInfo)| !(e.1.expires > now);
        let mut kept: Vec<(String, Link)> = Vec::new();
        let mut ended: Vec<String> = Vec::new();
        let mut i: usize = 0;
        proof {
            assert(table.take(0) =~= Seq::<(Seq<char>, LinkInfo)>::empty());
            reveal(Seq::filter);
            assert(kept@.map_values(|e: (String, Link)| (e.0@, e.1@)) =~= table.take(0).filter(
                alive,
            ));
            assert(text::texts(ended@) =~= table.take(0).filter(dead).map_values(
                |e: (Seq<char>, LinkInfo)| e.1.id,
            ));
        }
        while i < self.links.len()
            invariant
                i <= self.links.len(),
                table == self.table(),
                table.len() == self.links.len(),
                told == self.ended_ids(),
                self.config == old(self).config,
                alive == (|e: (Seq<char>, LinkInfo)| e.1.expires > now),
                dead == (|e: (Seq<char>, LinkInfo)| !(e.1.expires > now)),
                kept@.map_values(|e: (String, Link)| (e.0@, e.1@)) == table.take(i as int).filter(
                    alive,
                ),
                text::texts(ended@) == table.take(i as int).filter(dead).map_values(
                    |e: (Seq<char>, LinkInfo)| e.1.id,
                ),
            decreases self.links.len() - i,
        {
            let ghost entry = table[i as int];
            proof {
                reveal(Seq::filter);
                assert(table.take(i + 1).drop_last() =~= table.take(i as int));
                assert(table.take(i + 1).last() == entry);
                assert(entry == (self.links@[i as int].0@, self.links@[i as int].1@));
            }
            let ghost kept_before = kept@;
            let ghost ended_before = ended@;
            if self.links[i].1.expires > now {
                kept.push((self.links[i].0.clone(), self.links[i].1.duplicate()));
                proof {
                    assert(kept@.map_values(|e: (String, Link)| (e.0@, e.1@))
                        =~= kept_before.map_values(|e: (String, Link)| (e.0@, e.1@)).push(entry));
                }
            } else {
                ended.push(self.links[i].1.id.clone());
                proof {
                    assert(text::texts(ended@) =~= text::texts(ended_before).push(entry.1.id));
                    assert(table.take(i + 1).filter(dead).map_values(
                        |e: (Seq<char>, LinkInfo)| e.1.id,
                    ) =~= table.take(i as int).filter(dead).map_values(
                        |e: (Seq<char>, LinkInfo)| e.1.id,
                    ).push(entry.1.id));
                }
            }
            i += 1;
        }
        self.links = kept;
        self.tell(ended);
        proof {
            assert(table.take(table.len() as int) =~= table);
            lemma_filter_keeps_keys_apart(table, alive);
        }
    }

    /// Adds the names of dead links to those that sessions have to be told of.
    fn tell(&mut self, ended: Vec<String>)
        ensures
            final(self).links@ == old(self).links@,
            final(self).config == old(self).config,
            final(self).ended_ids() == old(self).ended_ids() + text::texts(ended@),
    {
        let ghost told = self.ended_ids();
        let mut i: usize = 0;
        proof {
            assert(text::texts(ended@).take(0) =~= Seq::<Seq<char>>::empty());
            assert(told + text::texts(ended@).take(0) =~= told);
        }
        while i < ended.len()
            invariant
                i <= ended.len(),
                self.links@ == old(self).links@,
                self.config == old(self).config,
                self.ended_ids() == told + text::texts(ended@).take(i as int),
            decreases ended.len() - i,
        {
            let ghost before = self.ended_ids();
            self.ended.push(ended[i].clone());
            proof {
                assert(self.ended_ids() =~= before.push(ended@[i as int]@));
                assert(self.ended_ids() =~= told + text::texts(ended@).take(i + 1));
            }
            i += 1;
        }
        proof {
            assert(text::texts(ended@).take(ended@.len() as int) =~= text::texts(ended@));
        }
    }

    /// Hands out the names of the links that have died, once.
    pub fn take_ended(&mut self) -> (r: Vec<String>)
        ensures
            text::texts(r@) == old(self).ended_ids(),
            final(self).ended_ids() == Seq::<Seq<char>>::empty(),
            final(self).links@ == old(self).links@,
            final(self).config == old(self).config,
    {
        let mut r: Vec<String> = Vec::new();
        std::mem::swap(&mut r, &mut self.ended);
        proof {
            assert(self.ended_ids() =~= Seq::<Seq<char>>::empty());
        }
        r
    }

    /// The position of a key.
    fn position(&self, key: &str) -> (r: Option<usize>)
        ensures
            r matches Some(i) ==> i < self.links.len() && self.table()[i as int].0 == key@
                && text::lookup(self.table(), key@) == Some(self.links@[i as int].1@),
            r is None ==> text::lookup(self.table(), key@) is None,
    {
        let ghost table = self.table();
        let mut i: usize = 0;
        proof {
            assert(table.skip(0) =~= table);
        }
        while i < self.links.len()
            invariant
                i <= self.links.len(),
                table == self.table(),
                table.len() == self.links.len(),
                text::lookup(table.skip(i as int), key@) == text::lookup(table, key@),
            decreases self.links.len() - i,
        {
            proof {
                text::lemma_lookup_skip(table, key@, i as int);
            }
            if text::same(self.links[i].0.as_str(), key) {
                return Some(i);
            }
            i += 1;
        }
        None
    }

    /// Puts the link at position `i`, whose key is `key`.
    fn put(&mut self, i: usize, key: String, link: Link)
        requires
            old(self).well_formed(),
            i < old(self).links.len(),
            old(self).table()[i as int].0 == key@,
        ensures
            final(self).well_formed(),
            final(self).config == old(self).config,
            final(self).ended@ == old(self).ended@,
            final(self).table() == with_link(old(self).table(), key@, link@),
    {
        let ghost table = self.table();
        self.links.set(i, (key, link));
        proof {
            let after = with_link(table, key@, link@);
            assert(table.len() == self.links.len());
            assert forall|j: int| 0 <= j < after.len() implies self.table()[j] == after[j] by {
                if j != i {
                    assert(table[j].0 != table[i as int].0);
                }
            }
            assert(self.table() =~= after);
            lemma_with_link_keeps_keys(table, key@, link@);
        }
    }

    /// Mints a link for a page, with a key and a name that are given.
    pub fn mint_with(
        &mut self,
        key: String,
        id: String,
        target_id: String,
        target_url: String,
        now: u64,
    )
        requires
            old(self).well_formed(),
            now + LINK_TTL <= u64::MAX,
        ensures
            final(self).well_formed(),
            final(self).config == old(self).config,
            ({
                let minted = Action::Mint(
                    key@,
                    LinkInfo {
                        id: id@,
                        target_id: target_id@,
                        target_url: target_url@,
                        expires: (now + LINK_TTL) as u64,
                    },
                );
                &&& final(self).table() == stepped(old(self).table(), minted, now)
                &&& final(self).ended_ids() == old(self).ended_ids() + told(
                    old(self).table(),
                    minted,
                    now,
                )
            }),
    {
        self.sweep(now);
        let ghost swept = self.table();
        let ghost told = self.ended_ids();
        let link = Link { id, target_id, target_url, expires: now + LINK_TTL };
        match self.position(key.as_str()) {
            Some(i) => {
                let mut replaced: Vec<String> = Vec::new();
                replaced.push(self.links[i].1.id.clone());
                proof {
                    assert(text::texts(replaced@) =~= seq![self.links@[i as int].1.id@]);
                }
                self.tell(replaced);
                self.put(i, key, link);
            },
            None => {
                proof {
                    text::lemma_lookup_finds(swept, key@);
                }
                self.links.push((key, link));
                proof {
                    assert(self.table() =~= swept.push((key@, link@)));
                    assert(self.ended_ids() =~= told + Seq::<Seq<char>>::empty());
                }
            },
        }
    }

    /// Mints a link for a page. The key and the name are chance: 64 and 32
    /// hexadecimal digits.
    pub fn mint(&mut self, target_id: String, target_url: String, now: u64) -> (r: MintedLink)
        requires
            old(self).well_formed(),
            now + LINK_TTL <= u64::MAX,
        ensures
            final(self).well_formed(),
            final(self).config == old(self).config,
            access::is_key(r.key@),
            access::is_link_id(r.id@),
            ({
                let minted = Action::Mint(
                    r.key@,
                    LinkInfo {
                        id: r.id@,
                        target_id: target_id@,
                        target_url: target_url@,
                        expires: (now + LINK_TTL) as u64,
                    },
                );
                &&& final(self).table() == stepped(old(self).table(), minted, now)
                &&& final(self).ended_ids() == old(self).ended_ids() + told(
                    old(self).table(),
                    minted,
                    now,
                )
            }),
    {
        let first = ids::random_id();
        let second = ids::random_id();
        let key = first.clone().concat(second.as_str());
        let id = ids::random_id();
        proof {
            let ok = |c: char| text::is_hex_digit(c);
            assert forall|i: int| 0 <= i < key@.len() implies ok(#[trigger] key@[i]) by {
                if i < 32 {
                    assert(ok(first@[i]));
                } else {
                    assert(ok(second@[i - 32]));
                }
            }
        }
        self.mint_with(key.clone(), id.clone(), target_id, target_url, now);
        MintedLink { key, id }
    }

    /// The page a key opens onto. Using a key starts its time again.
    pub fn resolve(&mut self, key: &str, now: u64) -> (r: Option<String>)
        requires
            old(self).well_formed(),
            now + LINK_TTL <= u64::MAX,
        ensures
            final(self).well_formed(),
            final(self).config == old(self).config,
            final(self).table() == stepped(old(self).table(), Action::Use(key@), now),
            final(self).ended_ids() == old(self).ended_ids() + told(
                old(self).table(),
                Action::Use(key@),
                now,
            ),
            match text::lookup(live(old(self).table(), now), key@) {
                Some(link) => r matches Some(target) && target@ == link.target_id,
                None => r is None,
            },
    {
        self.sweep(now);
        match self.position(key) {
            Some(i) => {
                let target = self.links[i].1.target_id.clone();
                let mut link = self.links[i].1.duplicate();
                link.expires = now + LINK_TTL;
                self.put(i, key.to_owned(), link);
                Some(target)
            },
            None => None,
        }
    }

    /// The page a key opens onto and the link's name, which is what says later
    /// that the session has to end. Using a key starts its time again.
    pub fn open_session(&mut self, key: &str, now: u64) -> (r: Option<(String, String)>)
        requires
            old(self).well_formed(),
            now + LINK_TTL <= u64::MAX,
        ensures
            final(self).well_formed(),
            final(self).config == old(self).config,
            final(self).table() == stepped(old(self).table(), Action::Use(key@), now),
            final(self).ended_ids() == old(self).ended_ids() + told(
                old(self).table(),
                Action::Use(key@),
                now,
            ),
            match text::lookup(live(old(self).table(), now), key@) {
                Some(link) => r matches Some(session) && session.0@ == link.target_id
                    && session.1@ == link.id,
                None => r is None,
            },
    {
        self.sweep(now);
        match self.position(key) {
            Some(i) => {
                let target = self.links[i].1.target_id.clone();
                let id = self.links[i].1.id.clone();
                let mut link = self.links[i].1.duplicate();
                link.expires = now + LINK_TTL;
                self.put(i, key.to_owned(), link);
                Some((target, id))
            },
            None => None,
        }
    }

    /// Revokes one link by its name.
    pub fn revoke_by_id(&mut self, id: &str, now: u64) -> (r: bool)
        requires
            old(self).well_formed(),
        ensures
            final(self).well_formed(),
            final(self).config == old(self).config,
            final(self).table() == stepped(old(self).table(), Action::Revoke(id@), now),
            final(self).ended_ids() == old(self).ended_ids() + told(
                old(self).table(),
                Action::Revoke(id@),
                now,
            ),
            r == (position_of_id(live(old(self).table(), now), id@) is Some),
    {
        self.sweep(now);
        let ghost swept = self.table();
        let mut i: usize = 0;
        proof {
            assert(swept.skip(0) =~= swept);
        }
        while i < self.links.len()
            invariant
                i <= self.links.len(),
                self.well_formed(),
                swept == self.table(),
                swept == live(old(self).table(), now),
                swept.len() == self.links.len(),
                self.config == old(self).config,
                self.ended_ids() == old(self).ended_ids() + expired_ids(old(self).table(), now),
                position_of_id(swept, id@) == (match position_of_id(swept.skip(i as int), id@) {
                    Some(k) => Some(k + i),
                    None => None::<int>,
                }),
            decreases self.links.len() - i,
        {
            proof {
                assert(swept.skip(i as int).skip(1) =~= swept.skip(i + 1));
                assert(swept.skip(i as int)[0] == swept[i as int]);
            }
            if text::same(self.links[i].1.id.as_str(), id) {
                let gone = self.links.remove(i);
                let mut ended: Vec<String> = Vec::new();
                ended.push(gone.1.id);
                proof {
                    assert(text::texts(ended@) =~= seq![id@]);
                    assert(self.table() =~= swept.remove(i as int));
                }
                self.tell(ended);
                proof {
                    assert(self.table() =~= swept.remove(i as int));
                    assert forall|a: int, b: int|
                        0 <= a < b < self.table().len() implies (#[trigger] self.table()[a]).0 != (
                    #[trigger] self.table()[b]).0 by {
                        let c = if a < i {
                            a
                        } else {
                            a + 1
                        };
                        let d = if b < i {
                            b
                        } else {
                            b + 1
                        };
                        assert(swept[c].0 != swept[d].0);
                    }
                }
                return true;
            }
            i += 1;
        }
        false
    }

    /// Revokes every link, and says how many of them still had time left.
    pub fn revoke_all(&mut self, now: u64) -> (r: usize)
        requires
            old(self).well_formed(),
        ensures
            final(self).well_formed(),
            final(self).config == old(self).config,
            r == live(old(self).table(), now).len(),
            final(self).table() == stepped(old(self).table(), Action::RevokeAll, now),
            final(self).ended_ids() == old(self).ended_ids() + told(
                old(self).table(),
                Action::RevokeAll,
                now,
            ),
    {
        let ghost table = self.table();
        let ghost alive = |e: (Seq<char>, LinkInfo)| e.1.expires > now;
        let mut count: usize = 0;
        let mut ended: Vec<String> = Vec::new();
        let mut i: usize = 0;
        proof {
            reveal(Seq::filter);
            assert(table.take(0) =~= Seq::<(Seq<char>, LinkInfo)>::empty());
        }
        while i < self.links.len()
            invariant
                i <= self.links.len(),
                table == self.table(),
                table.len() == self.links.len(),
                self.ended_ids() == old(self).ended_ids(),
                self.config == old(self).config,
                alive == (|e: (Seq<char>, LinkInfo)| e.1.expires > now),
                count <= i,
                count == table.take(i as int).filter(alive).len(),
                text::texts(ended@) == ids(table).take(i as int),
            decreases self.links.len() - i,
        {
            let ghost before = ended@;
            proof {
                reveal(Seq::filter);
                assert(table.take(i + 1).drop_last() =~= table.take(i as int));
                assert(table.take(i + 1).last() == table[i as int]);
                assert(table[i as int] == (self.links@[i as int].0@, self.links@[i as int].1@));
            }
            if self.links[i].1.expires > now {
                count += 1;
            }
            ended.push(self.links[i].1.id.clone());
            proof {
                assert(text::texts(ended@) =~= text::texts(before).push(table[i as int].1.id));
                assert(ids(table).take(i + 1) =~= ids(table).take(i as int).push(
                    table[i as int].1.id,
                ));
            }
            i += 1;
        }
        proof {
            assert(table.take(table.len() as int) =~= table);
            assert(ids(table).take(table.len() as int) =~= ids(table));
        }
        self.links = Vec::new();
        self.tell(ended);
        proof {
            assert(self.table() =~= Seq::<(Seq<char>, LinkInfo)>::empty());
        }
        count
    }

    /// The positions of the links, in the order in which they expire.
    fn order_by_expiry(&self) -> (r: Vec<usize>)
        ensures
            forall|k: int| 0 <= k < r.len() ==> #[trigger] r@[k] < self.links.len(),
            links_at(self.table(), r@) == by_expiry(self.table()),
    {
        let ghost table = self.table();
        let mut order: Vec<usize> = Vec::new();
        let mut i: usize = 0;
        proof {
            assert(table.take(0) =~= Seq::<(Seq<char>, LinkInfo)>::empty());
            assert(links_at(table, order@) =~= by_expiry(table.take(0)));
        }
        while i < self.links.len()
            invariant
                i <= self.links.len(),
                table == self.table(),
                forall|k: int| 0 <= k < order.len() ==> #[trigger] order@[k] < self.links.len(),
                links_at(table, order@) == by_expiry(table.take(i as int)),
            decreases self.links.len() - i,
        {
            let ghost sorted = links_at(table, order@);
            let ghost entry = table[i as int];
            let mut at: usize = order.len();
            proof {
                assert(table.take(i + 1).drop_last() =~= table.take(i as int));
                assert(sorted.take(at as int) =~= sorted);
                assert(placed(sorted.take(at as int), entry) + sorted.skip(at as int) =~= placed(
                    sorted,
                    entry,
                ));
            }
            while at > 0 && self.links[order[at - 1]].1.expires > self.links[i].1.expires
                invariant
                    at <= order.len(),
                    i < self.links.len(),
                    table == self.table(),
                    sorted == links_at(table, order@),
                    entry == table[i as int],
                    forall|k: int|
                        0 <= k < order.len() ==> #[trigger] order@[k] < self.links.len(),
                    placed(sorted.take(at as int), entry) + sorted.skip(at as int) == placed(
                        sorted,
                        entry,
                    ),
                decreases at,
            {
                proof {
                    assert(sorted.take(at as int).drop_last() =~= sorted.take(at - 1));
                    assert(sorted.take(at as int).last() == sorted[at - 1]);
                    assert(placed(sorted.take(at as int), entry) + sorted.skip(at as int)
                        =~= placed(sorted.take(at - 1), entry) + sorted.skip(at - 1));
                }
                at -= 1;
            }
            proof {
                if at > 0 {
                    assert(sorted.take(at as int).last() == sorted[at - 1]);
                }
                assert(placed(sorted.take(at as int), entry) == sorted.take(at as int).push(
                    entry,
                ));
            }
            order.insert(at, i);
            proof {
                assert(links_at(table, order@) =~= sorted.take(at as int).push(entry)
                    + sorted.skip(at as int));
            }
            i += 1;
        }
        proof {
            assert(table.take(table.len() as int) =~= table);
        }
        order
    }

    /// The live links, the one that expires last at the end. Never the keys.
    pub fn list(&mut self, now: u64) -> (r: Vec<DevToolsLinkSummary>)
        requires
            old(self).well_formed(),
        ensures
            final(self).well_formed(),
            final(self).config == old(self).config,
            final(self).table() == live(old(self).table(), now),
            final(self).ended_ids() == old(self).ended_ids() + expired_ids(
                old(self).table(),
                now,
            ),
            summary_views(r@) == summaries(by_expiry(live(old(self).table(), now)), now),
    {
        self.sweep(now);
        let order = self.order_by_expiry();
        let ghost table = self.table();
        let ghost listed = summaries(links_at(table, order@), now);
        let mut out: Vec<DevToolsLinkSummary> = Vec::new();
        let mut i: usize = 0;
        while i < order.len()
            invariant
                i <= order.len(),
                table == self.table(),
                listed == summaries(links_at(table, order@), now),
                forall|k: int| 0 <= k < order.len() ==> #[trigger] order@[k] < self.links.len(),
                summary_views(out@) =~= listed.take(i as int),
            decreases order.len() - i,
        {
            let next = self.links[order[i]].1.summary(now);
            proof {
                assert(listed.take(i + 1) =~= listed.take(i as int).push(listed[i as int]));
                assert(listed[i as int] == next@);
            }
            out.push(next);
            i += 1;
        }
        proof {
            assert(listed.take(listed.len() as int) =~= listed);
        }
        out
    }
}

proof fn lemma_placed(sorted: LinkTable, entry: (Seq<char>, LinkInfo))
    requires
        in_expiry_order(sorted),
    ensures
        in_expiry_order(placed(sorted, entry)),
        placed(sorted, entry).to_multiset() == sorted.to_multiset().insert(entry),
        placed(sorted, entry).len() == sorted.len() + 1,
    decreases sorted.len(),
{
    sorted.to_multiset_ensures();
    if sorted.len() > 0 && sorted.last().1.expires > entry.1.expires {
        let init = sorted.drop_last();
        lemma_placed(init, entry);
        let smaller = placed(init, entry);
        smaller.to_multiset_ensures();
        init.to_multiset_ensures();
        assert(init.push(sorted.last()) =~= sorted);
        let out = smaller.push(sorted.last());
        assert(out.to_multiset() =~= sorted.to_multiset().insert(entry));
        assert forall|i: int| 0 <= i < smaller.len() implies (#[trigger] smaller[i]).1.expires
            <= sorted.last().1.expires by {
            assert(smaller.to_multiset().count(smaller[i]) > 0);
            if smaller[i] != entry {
                assert(init.to_multiset().count(smaller[i]) > 0);
                assert(init.contains(smaller[i]));
                let k = choose|k: int| 0 <= k < init.len() && init[k] == smaller[i];
                assert(sorted[k].1.expires <= sorted[sorted.len() - 1].1.expires);
            }
        }
    } else if sorted.len() > 0 {
        let out = sorted.push(entry);
        assert forall|i: int, j: int| 0 <= i < j < out.len() implies (#[trigger] out[i]).1.expires
            <= (#[trigger] out[j]).1.expires by {
            if j == sorted.len() && i < sorted.len() - 1 {
                assert(sorted[i].1.expires <= sorted[sorted.len() - 1].1.expires);
            }
        }
    }
}

proof fn lemma_by_expiry(table: LinkTable)
    ensures
        in_expiry_order(by_expiry(table)),
        by_expiry(table).to_multiset() == table.to_multiset(),
    decreases table.len(),
{
    if table.len() > 0 {
        let init = table.drop_last();
        lemma_by_expiry(init);
        lemma_placed(by_expiry(init), table.last());
        init.to_multiset_ensures();
        assert(init.push(table.last()) =~= table);
    } else {
        assert(by_expiry(table) =~= table);
    }
}

/// A listing holds exactly the links that are alive, and the one that expires
/// last comes last, also by the seconds that each has left.
pub proof fn listing_ends_with_the_newest(table: LinkTable, now: u64)
    ensures
        by_expiry(live(table, now)).to_multiset() == live(table, now).to_multiset(),
        in_expiry_order(by_expiry(live(table, now))),
        forall|i: int, j: int|
            0 <= i < j < summaries(by_expiry(live(table, now)), now).len() ==> (#[trigger]
            summaries(by_expiry(live(table, now)), now)[i]).2 <= (#[trigger] summaries(
                by_expiry(live(table, now)),
                now,
            )[j]).2,
{
    lemma_by_expiry(live(table, now));
    let sorted = by_expiry(live(table, now));
    let listed = summaries(sorted, now);
    assert forall|i: int, j: int| 0 <= i < j < listed.len() implies (#[trigger] listed[i]).2 <= (
    #[trigger] listed[j]).2 by {
        assert(sorted[i].1.expires <= sorted[j].1.expires);
        assert(listed[i] == summary_of(sorted[i].1, now));
        assert(listed[j] == summary_of(sorted[j].1, now));
    }
}

proof fn lemma_filter_keeps_keys_apart(
    table: LinkTable,
    keep: spec_fn((Seq<char>, LinkInfo)) -> bool,
)
    requires
        keys_differ(table),
    ensures
        keys_differ(table.filter(keep)),
        forall|i: int|
            0 <= i < table.filter(keep).len() ==> table.contains(#[trigger] table.filter(keep)[i]),
    decreases table.len(),
{
    reveal(Seq::filter);
    if table.len() > 0 {
        let init = table.drop_last();
        lemma_filter_keeps_keys_apart(init, keep);
        let kept = init.filter(keep);
        assert forall|i: int| 0 <= i < table.filter(keep).len() implies table.contains(
            #[trigger] table.filter(keep)[i],
        ) by {
            if i < kept.len() {
                assert(init.contains(kept[i]));
                let k = choose|k: int| 0 <= k < init.len() && init[k] == kept[i];
                assert(table[k] == kept[i]);
            } else {
                assert(table[table.len() - 1] == table.filter(keep)[i]);
            }
        }
        assert forall|i: int, j: int| 0 <= i < j < table.filter(keep).len() implies (
        #[trigger] table.filter(keep)[i]).0 != (#[trigger] table.filter(keep)[j]).0 by {
            if j == kept.len() {
                assert(init.contains(kept[i]));
                let k = choose|k: int| 0 <= k < init.len() && init[k] == kept[i];
                assert(table[k].0 != table[table.len() - 1].0);
            }
        }
    }
}

proof fn lemma_with_link_keeps_keys(table: LinkTable, key: Seq<char>, link: LinkInfo)
    requires
        keys_differ(table),
    ensures
        keys_differ(with_link(table, key, link)),
{
    let after = with_link(table, key, link);
    assert forall|i: int, j: int| 0 <= i < j < after.len() implies (#[trigger] after[i]).0 != (
    #[trigger] after[j]).0 by {
        assert(after[i].0 == table[i].0);
        assert(after[j].0 == table[j].0);
    }
}

/// A link found under a key is the only one with the key.
proof fn lemma_lookup_of_entry(table: LinkTable, i: int)
    requires
        keys_differ(table),
        0 <= i < table.len(),
    ensures
        text::lookup(table, table[i].0) == Some(table[i].1),
{
    text::lemma_lookup_finds(table, table[i].0);
    let found = text::lookup(table, table[i].0)->0;
    let k = choose|k: int| 0 <= k < table.len() && #[trigger] table[k] == (table[i].0, found);
    if k != i {
        assert(table[k].0 != table[i].0);
    }
}

/// A key works exactly as long as its link has time left.
pub proof fn key_works_until_it_expires(table: LinkTable, key: Seq<char>, now: u64)
    requires
        keys_differ(table),
    ensures
        text::lookup(live(table, now), key) == (match text::lookup(table, key) {
            Some(link) => if link.expires > now {
                Some(link)
            } else {
                None
            },
            None => None,
        }),
{
    let alive = |e: (Seq<char>, LinkInfo)| e.1.expires > now;
    let kept = live(table, now);
    lemma_filter_keeps_keys_apart(table, alive);
    text::lemma_lookup_finds(table, key);
    text::lemma_lookup_finds(kept, key);
    if let Some(link) = text::lookup(table, key) {
        let i = choose|i: int| 0 <= i < table.len() && #[trigger] table[i] == (key, link);
        if link.expires > now {
            table.lemma_filter_contains(alive, i);
            let k = choose|k: int| 0 <= k < kept.len() && kept[k] == table[i];
            lemma_lookup_of_entry(kept, k);
        } else if let Some(other) = text::lookup(kept, key) {
            let k = choose|k: int| 0 <= k < kept.len() && #[trigger] kept[k] == (key, other);
            table.lemma_filter_pred(alive, k);
            assert(table.contains(kept[k]));
            let j = choose|j: int| 0 <= j < table.len() && table[j] == kept[k];
            lemma_lookup_of_entry(table, j);
        }
    } else if let Some(other) = text::lookup(kept, key) {
        let k = choose|k: int| 0 <= k < kept.len() && #[trigger] kept[k] == (key, other);
        assert(table.contains(kept[k]));
        let j = choose|j: int| 0 <= j < table.len() && table[j] == kept[k];
        assert(table[j].0 == key);
    }
}

/// A link put under a key is what the key then leads to, and no other key
/// changes.
pub proof fn minted_key_leads_to_its_link(
    table: LinkTable,
    key: Seq<char>,
    link: LinkInfo,
    other: Seq<char>,
)
    requires
        keys_differ(table),
    ensures
        keys_differ(inserted(table, key, link)),
        text::lookup(inserted(table, key, link), key) == Some(link),
        other != key ==> text::lookup(inserted(table, key, link), other) == text::lookup(
            table,
            other,
        ),
{
    let after = inserted(table, key, link);
    text::lemma_lookup_finds(table, key);
    match text::lookup(table, key) {
        Some(previous) => {
            using_a_key_leaves_the_others(table, key, previous, link, other);
        },
        None => {
            assert(after.last() == (key, link));
            assert forall|i: int, j: int| 0 <= i < j < after.len() implies (#[trigger] after[i]).0
                != (#[trigger] after[j]).0 by {
                assert(after[i] == table[i]);
            }
            lemma_lookup_of_entry(after, table.len() as int);
            if other != key {
                text::lemma_lookup_finds(table, other);
                text::lemma_lookup_finds(after, other);
                if let Some(found) = text::lookup(table, other) {
                    let i = choose|i: int|
                        0 <= i < table.len() && #[trigger] table[i] == (other, found);
                    assert(after[i] == (other, found));
                    lemma_lookup_of_entry(after, i);
                } else if let Some(found) = text::lookup(after, other) {
                    let i = choose|i: int|
                        0 <= i < after.len() && #[trigger] after[i] == (other, found);
                    assert(table[i].0 == other);
                }
            }
        },
    }
}

/// Giving a key another link, such as the same one with its time started
/// again, leaves every other key as it was.
pub proof fn using_a_key_leaves_the_others(
    table: LinkTable,
    key: Seq<char>,
    previous: LinkInfo,
    link: LinkInfo,
    other: Seq<char>,
)
    requires
        keys_differ(table),
        text::lookup(table, key) == Some(previous),
    ensures
        keys_differ(with_link(table, key, link)),
        text::lookup(with_link(table, key, link), key) == Some(link),
        other != key ==> text::lookup(with_link(table, key, link), other) == text::lookup(
            table,
            other,
        ),
{
    let after = with_link(table, key, link);
    lemma_with_link_keeps_keys(table, key, link);
    text::lemma_lookup_finds(table, key);
    let i = choose|i: int| 0 <= i < table.len() && #[trigger] table[i] == (key, previous);
    assert(after[i] == (key, link));
    lemma_lookup_of_entry(after, i);
    if other != key {
        text::lemma_lookup_finds(table, other);
        text::lemma_lookup_finds(after, other);
        if let Some(found) = text::lookup(table, other) {
            let j = choose|j: int| 0 <= j < table.len() && #[trigger] table[j] == (other, found);
            assert(after[j] == (other, found));
            lemma_lookup_of_entry(after, j);
        } else if let Some(found) = text::lookup(after, other) {
            let j = choose|j: int| 0 <= j < after.len() && #[trigger] after[j] == (other, found);
            assert(table[j].0 == other);
        }
    }
}

/// No two links have the same name.
pub open spec fn ids_differ(table: LinkTable) -> bool {
    forall|i: int, j: int|
        0 <= i < j < table.len() ==> (#[trigger] table[i]).1.id != (#[trigger] table[j]).1.id
}

/// A position that is found is that of a link with the name.
pub proof fn lemma_position_of_id(table: LinkTable, id: Seq<char>)
    ensures
        position_of_id(table, id) matches Some(i) ==> 0 <= i < table.len() && table[i].1.id == id,
        position_of_id(table, id) is None ==> forall|i: int|
            0 <= i < table.len() ==> (#[trigger] table[i]).1.id != id,
    decreases table.len(),
{
    if table.len() > 0 && table[0].1.id != id {
        let rest = table.skip(1);
        lemma_position_of_id(rest, id);
        if position_of_id(rest, id) is None {
            assert forall|i: int| 0 <= i < table.len() implies (#[trigger] table[i]).1.id != id by {
                if i > 0 {
                    assert(rest[i - 1] == table[i]);
                }
            }
        }
    }
}

/// Once the link of a key is revoked by its name, the key leads nowhere, and
/// revoking the name again finds nothing.
pub proof fn revoked_key_stops_working(table: LinkTable, key: Seq<char>, link: LinkInfo)
    requires
        keys_differ(table),
        ids_differ(table),
        text::lookup(table, key) == Some(link),
    ensures
        position_of_id(table, link.id) matches Some(i) && text::lookup(table.remove(i), key) is None
            && position_of_id(table.remove(i), link.id) is None,
{
    text::lemma_lookup_finds(table, key);
    let k = choose|k: int| 0 <= k < table.len() && #[trigger] table[k] == (key, link);
    lemma_position_of_id(table, link.id);
    let i = position_of_id(table, link.id)->0;
    assert(table[i].1.id == table[k].1.id);
    assert(i == k);
    let after = table.remove(i);
    text::lemma_lookup_finds(after, key);
    lemma_position_of_id(after, link.id);
    assert forall|j: int| 0 <= j < after.len() implies (#[trigger] after[j]).0 != key
        && after[j].1.id != link.id by {
        let c = if j < i {
            j
        } else {
            j + 1
        };
        assert(after[j] == table[c]);
        assert(table[c].0 != table[i].0);
        assert(table[c].1.id != table[i].1.id);
    }
    if let Some(found) = text::lookup(after, key) {
        let j = choose|j: int| 0 <= j < after.len() && #[trigger] after[j] == (key, found);
        assert(after[j].0 != key);
    }
    if let Some(j) = position_of_id(after, link.id) {
        assert(after[j].1.id != link.id);
    }
}

/// A sweep keeps a link or has its sessions told, never neither.
pub proof fn every_dropped_link_is_told(table: LinkTable, now: u64, i: int)
    requires
        0 <= i < table.len(),
    ensures
        live(table, now).contains(table[i]) || expired_ids(table, now).contains(table[i].1.id),
{
    let alive = |e: (Seq<char>, LinkInfo)| e.1.expires > now;
    let dead = |e: (Seq<char>, LinkInfo)| !(e.1.expires > now);
    if table[i].1.expires > now {
        table.lemma_filter_contains(alive, i);
    } else {
        table.lemma_filter_contains(dead, i);
        let gone = table.filter(dead);
        let k = choose|k: int| 0 <= k < gone.len() && gone[k] == table[i];
        assert(expired_ids(table, now)[k] == table[i].1.id);
    }
}

/// Taking one link out leaves nothing under its key, and every other key as it
/// was.
pub proof fn lemma_removed(table: LinkTable, i: int, key: Seq<char>)
    requires
        keys_differ(table),
        0 <= i < table.len(),
    ensures
        keys_differ(table.remove(i)),
        text::lookup(table.remove(i), key) == if table[i].0 == key {
            None
        } else {
            text::lookup(table, key)
        },
{
    let after = table.remove(i);
    assert forall|a: int, b: int| 0 <= a < b < after.len() implies (#[trigger] after[a]).0 != (
    #[trigger] after[b]).0 by {
        let c = if a < i {
            a
        } else {
            a + 1
        };
        let d = if b < i {
            b
        } else {
            b + 1
        };
        assert(table[c].0 != table[d].0);
    }
    text::lemma_lookup_finds(table, key);
    text::lemma_lookup_finds(after, key);
    if let Some(found) = text::lookup(after, key) {
        let a = choose|a: int| 0 <= a < after.len() && #[trigger] after[a] == (key, found);
        let c = if a < i {
            a
        } else {
            a + 1
        };
        assert(table[c] == (key, found));
        lemma_lookup_of_entry(table, c);
        if table[i].0 == key {
            lemma_lookup_of_entry(table, i);
            if c < i {
                assert(table[c].0 != table[i].0);
            } else {
                assert(table[i].0 != table[c].0);
            }
        }
    } else if table[i].0 != key {
        if let Some(found) = text::lookup(table, key) {
            let c = choose|c: int| 0 <= c < table.len() && #[trigger] table[c] == (key, found);
            let a = if c < i {
                c
            } else {
                c - 1
            };
            assert(after[a] == (key, found));
        }
    }
}

/// What is left of a table keeps a name under its key.
proof fn lemma_live_keeps_names(table: LinkTable, key: Seq<char>, id: Seq<char>, now: u64)
    requires
        keys_differ(table),
        only_under(table, key, id),
    ensures
        keys_differ(live(table, now)),
        only_under(live(table, now), key, id),
{
    let alive = |e: (Seq<char>, LinkInfo)| e.1.expires > now;
    lemma_filter_keeps_keys_apart(table, alive);
    let left = live(table, now);
    assert forall|i: int| 0 <= i < left.len() && (#[trigger] left[i]).1.id == id implies left[i].0
        == key by {
        assert(table.contains(table.filter(alive)[i]));
        let k = choose|k: int| 0 <= k < table.len() && table[k] == left[i];
        assert(table[k].1.id == id ==> table[k].0 == key);
    }
}

/// One thing done to a table in which a key and a name belong together, unless
/// it mints either anew.
proof fn lemma_step(table: LinkTable, key: Seq<char>, id: Seq<char>, action: Action, now: u64)
    requires
        keys_differ(table),
        only_under(table, key, id),
        text::lookup(table, key) matches Some(link) ==> link.id == id,
        action matches Action::Mint(k, link) ==> k != key && link.id != id,
    ensures
        keys_differ(stepped(table, action, now)),
        only_under(stepped(table, action, now), key, id),
        text::lookup(stepped(table, action, now), key) == (match text::lookup(
            live(table, now),
            key,
        ) {
            None => None,
            Some(link) => match action {
                Action::Use(k) => if k == key {
                    Some(renewed(link, now))
                } else {
                    Some(link)
                },
                Action::Revoke(name) => if name == id {
                    None
                } else {
                    Some(link)
                },
                Action::RevokeAll => None,
                Action::Mint(_, _) | Action::Sweep => Some(link),
            },
        }),
{
    let left = live(table, now);
    let after = stepped(table, action, now);
    lemma_live_keeps_names(table, key, id, now);
    key_works_until_it_expires(table, key, now);
    text::lemma_lookup_finds(left, key);
    match action {
        Action::Mint(k, link) => {
            minted_key_leads_to_its_link(left, k, renewed(link, now), key);
            assert forall|i: int| 0 <= i < after.len() && (#[trigger] after[i]).1.id == id implies after[i].0
        == key by {
                if i < left.len() {
                    assert(left[i].1.id == id ==> left[i].0 == key);
                }
            }
        },
        Action::Use(k) => {
            text::lemma_lookup_finds(left, k);
            if let Some(link) = text::lookup(left, k) {
                using_a_key_leaves_the_others(left, k, link, renewed(link, now), key);
                let c = choose|c: int| 0 <= c < left.len() && #[trigger] left[c] == (k, link);
                assert forall|i: int| 0 <= i < after.len() && (#[trigger] after[i]).1.id == id implies after[i].0
        == key by {
                    assert(left[i].1.id == id ==> left[i].0 == key);
                    assert(left[c].1.id == id ==> left[c].0 == key);
                }
            }
        },
        Action::Revoke(name) => {
            lemma_position_of_id(left, name);
            if let Some(i) = position_of_id(left, name) {
                lemma_removed(left, i, key);
                assert forall|a: int| 0 <= a < after.len() && (#[trigger] after[a]).1.id == id implies after[a].0
        == key by {
                    let c = if a < i {
                        a
                    } else {
                        a + 1
                    };
                    assert(left[c].1.id == id ==> left[c].0 == key);
                }
                if left[i].0 == key {
                    lemma_lookup_of_entry(left, i);
                }
            } else if let Some(link) = text::lookup(left, key) {
                let c = choose|c: int| 0 <= c < left.len() && #[trigger] left[c] == (key, link);
                assert(left[c].1.id != name);
            }
        },
        Action::RevokeAll => {
            text::lemma_lookup_finds(after, key);
        },
        Action::Sweep => {},
    }
}

proof fn lemma_link_after(
    table: LinkTable,
    key: Seq<char>,
    link: LinkInfo,
    minted: u64,
    actions: Seq<(Action, u64)>,
)
    requires
        keys_differ(table),
        only_under(table, key, link.id),
        text::lookup(table, key) == Some(link),
        link.expires == minted + LINK_TTL,
        mints_neither(actions, key, link.id),
        times_fit(actions),
    ensures
        keys_differ(after_all(table, actions)),
        only_under(after_all(table, actions), key, link.id),
        match last_started(key, link.id, minted, actions) {
            Some(started) => started + LINK_TTL <= u64::MAX && text::lookup(
                after_all(table, actions),
                key,
            ) == Some(LinkInfo { expires: (started + LINK_TTL) as u64, ..link }),
            None => text::lookup(after_all(table, actions), key) is None,
        },
    decreases actions.len(),
{
    if actions.len() > 0 {
        let before = actions.drop_last();
        let (action, now) = actions.last();
        assert(actions[actions.len() - 1] == (action, now));
        assert(mints_neither(before, key, link.id)) by {
            assert forall|i: int| 0 <= i < before.len() implies ((#[trigger] before[i]).0 matches
            Action::Mint(k, other) ==> k != key && other.id != link.id) by {
                assert(actions[i] == before[i]);
            }
        }
        assert(times_fit(before)) by {
            assert forall|i: int| 0 <= i < before.len() implies (#[trigger] before[i]).1 + LINK_TTL
                <= u64::MAX by {
                assert(actions[i] == before[i]);
            }
        }
        lemma_link_after(table, key, link, minted, before);
        let then = after_all(table, before);
        key_works_until_it_expires(then, key, now);
        lemma_step(then, key, link.id, action, now);
    }
}

/// A minted key leads to its page until the link is revoked or its time is
/// over, which starts again whenever the key is used; then it leads nowhere.
/// Using it while it works starts its time, and using it afterwards changes no
/// link.
pub proof fn minted_key_works_while_it_is_used(
    table: LinkTable,
    key: Seq<char>,
    link: LinkInfo,
    minted: u64,
    actions: Seq<(Action, u64)>,
    now: u64,
)
    requires
        keys_differ(table),
        only_under(table, key, link.id),
        minted + LINK_TTL <= u64::MAX,
        mints_neither(actions, key, link.id),
        times_fit(actions),
        now + LINK_TTL <= u64::MAX,
    ensures
        ({
            let then = after_all(stepped(table, Action::Mint(key, link), minted), actions);
            let used = stepped(then, Action::Use(key), now);
            match last_started(key, link.id, minted, actions) {
                Some(started) => if now < started + LINK_TTL {
                    &&& text::lookup(live(then, now), key) == Some(
                        LinkInfo { expires: (started + LINK_TTL) as u64, ..link },
                    )
                    &&& text::lookup(used, key) == Some(
                        LinkInfo { expires: (now + LINK_TTL) as u64, ..link },
                    )
                } else {
                    text::lookup(live(then, now), key) is None && used == live(then, now)
                },
                None => text::lookup(live(then, now), key) is None && used == live(then, now),
            }
        }),
{
    let base = stepped(table, Action::Mint(key, link), minted);
    let start = renewed(link, minted);
    lemma_live_keeps_names(table, key, link.id, minted);
    let left = live(table, minted);
    minted_key_leads_to_its_link(left, key, start, key);
    assert(only_under(base, key, link.id)) by {
        assert forall|i: int| 0 <= i < base.len() && (#[trigger] base[i]).1.id == link.id implies base[i].0
        == key by {
            if i < left.len() {
                assert(left[i].1.id == link.id ==> left[i].0 == key);
            }
        }
    }
    lemma_link_after(base, key, start, minted, actions);
    let then = after_all(base, actions);
    key_works_until_it_expires(then, key, now);
    lemma_step(then, key, link.id, Action::Use(key), now);
}

/// A key that leads nowhere and that no link is minted under leads nowhere ever
/// after, and using it changes no link that has time left.
pub proof fn unknown_key_never_works(
    table: LinkTable,
    key: Seq<char>,
    actions: Seq<(Action, u64)>,
    now: u64,
)
    requires
        keys_differ(table),
        text::lookup(table, key) is None,
        forall|i: int|
            0 <= i < actions.len() ==> ((#[trigger] actions[i]).0 matches Action::Mint(k, _) ==> k
                != key),
    ensures
        keys_differ(after_all(table, actions)),
        text::lookup(live(after_all(table, actions), now), key) is None,
        stepped(after_all(table, actions), Action::Use(key), now) == live(
            after_all(table, actions),
            now,
        ),
    decreases actions.len(),
{
    if actions.len() > 0 {
        let before = actions.drop_last();
        let (action, at) = actions.last();
        assert forall|i: int| 0 <= i < before.len() implies ((#[trigger] before[i]).0 matches
        Action::Mint(k, _) ==> k != key) by {
            assert(actions[i] == before[i]);
        }
        assert(actions[actions.len() - 1] == (action, at));
        unknown_key_never_works(table, key, before, at);
        lemma_unknown_step(after_all(table, before), key, action, at);
    }
    key_works_until_it_expires(after_all(table, actions), key, now);
}

proof fn lemma_unknown_step(table: LinkTable, key: Seq<char>, action: Action, now: u64)
    requires
        keys_differ(table),
        text::lookup(live(table, now), key) is None,
        action matches Action::Mint(k, _) ==> k != key,
    ensures
        keys_differ(stepped(table, action, now)),
        text::lookup(stepped(table, action, now), key) is None,
{
    let left = live(table, now);
    lemma_filter_keeps_keys_apart(table, |e: (Seq<char>, LinkInfo)| e.1.expires > now);
    match action {
        Action::Mint(k, link) => {
            minted_key_leads_to_its_link(left, k, renewed(link, now), key);
        },
        Action::Use(k) => {
            if let Some(link) = text::lookup(left, k) {
                using_a_key_leaves_the_others(left, k, link, renewed(link, now), key);
            }
        },
        Action::Revoke(name) => {
            lemma_position_of_id(left, name);
            if let Some(i) = position_of_id(left, name) {
                lemma_removed(left, i, key);
            }
        },
        Action::RevokeAll => {
            text::lemma_lookup_finds(stepped(table, action, now), key);
        },
        Action::Sweep => {},
    }
}

/// Whatever is done to the table, a link stays in it or its sessions are told,
/// never neither.
pub proof fn every_link_that_goes_is_told(table: LinkTable, action: Action, now: u64, i: int)
    requires
        keys_differ(table),
        0 <= i < table.len(),
    ensures
        ids(stepped(table, action, now)).contains(table[i].1.id) || told(
            table,
            action,
            now,
        ).contains(table[i].1.id),
{
    let id = table[i].1.id;
    let left = live(table, now);
    let after = stepped(table, action, now);
    let gone = told(table, action, now);
    every_dropped_link_is_told(table, now, i);
    if action is RevokeAll {
        assert(ids(table)[i] == id);
    } else if !left.contains(table[i]) {
        let dead = expired_ids(table, now);
        let k = choose|k: int| 0 <= k < dead.len() && dead[k] == id;
        assert(gone[k] == id);
    } else {
        let k = choose|k: int| 0 <= k < left.len() && left[k] == table[i];
        lemma_filter_keeps_keys_apart(table, |e: (Seq<char>, LinkInfo)| e.1.expires > now);
        lemma_lookup_of_entry(left, k);
        match action {
            Action::Mint(key, link) => {
                if left[k].0 == key {
                    assert(gone.last() == id);
                } else {
                    assert(after[k] == left[k]);
                    assert(ids(after)[k] == id);
                }
            },
            Action::Use(key) => {
                assert(after[k].1.id == id);
                assert(ids(after)[k] == id);
            },
            Action::Revoke(name) => {
                lemma_position_of_id(left, name);
                if let Some(p) = position_of_id(left, name) {
                    if p == k {
                        assert(gone.last() == id);
                    } else {
                        let a = if k < p {
                            k
                        } else {
                            k - 1
                        };
                        assert(after[a] == left[k]);
                        assert(ids(after)[a] == id);
                    }
                } else {
                    assert(ids(after)[k] == id);
                }
            },
            Action::RevokeAll => {},
            Action::Sweep => {
                assert(ids(after)[k] == id);
            },
        }
    }
}

} // verus!
