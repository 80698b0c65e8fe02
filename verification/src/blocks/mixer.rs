//! The audio mixer's solo properties.
//!
//! Each channel has a pre-fader (`chN_pfl`) and a post-fader (`chN_afl`) solo.
//! Engaging any of them moves the monitor bus from the main mix to the solo mix,
//! by way of the two volume elements named here.

use crate::text;
use vstd::prelude::*;

verus! {

/// The mixer's definition id.
pub const MIXER_BLOCK_ID: &'static str = "builtin.mixer";

/// The element that lets the solo mix onto the monitor bus.
pub const SOLO_TO_MON_ELEMENT: &'static str = "solo_to_mon";

/// The element that lets the main mix onto the monitor bus.
pub const MAIN_TO_MON_ELEMENT: &'static str = "main_to_mon";

/// What comes before the suffix that marks a solo property.
pub open spec fn solo_owner(name: Seq<char>) -> Option<Seq<char>> {
    if text::has_suffix(name, "_pfl"@) {
        Some(name.take(name.len() - "_pfl"@.len()))
    } else if text::has_suffix(name, "_afl"@) {
        Some(name.take(name.len() - "_afl"@.len()))
    } else {
        None
    }
}

/// The channel, counted from one, that a solo property belongs to.
pub open spec fn solo_channel(name: Seq<char>) -> Option<nat> {
    match solo_owner(name) {
        Some(owner) => if text::has_prefix(owner, "ch"@) {
            match text::parsed_number(owner.skip("ch"@.len() as int), usize::MAX as nat) {
                Some(n) => if n >= 1 {
                    Some(n)
                } else {
                    None
                },
                None => None,
            }
        } else {
            None
        },
        None => None,
    }
}

/// The channel, counted from one, that a solo property belongs to.
pub fn parse_solo_property_name(name: &str) -> (r: Option<usize>)
    ensures
        r matches Some(n) ==> solo_channel(name@) == Some(n as nat),
        r is None ==> solo_channel(name@) is None,
{
    let owner = match text::strip_suffix(name, "_pfl") {
        Some(owner) => owner,
        None => match text::strip_suffix(name, "_afl") {
            Some(owner) => owner,
            None => {
                return None;
            },
        },
    };
    match text::strip_prefix(owner.as_str(), "ch") {
        Some(number) => match text::parse_usize(number.as_str()) {
            Some(n) => if n >= 1 {
                Some(n)
            } else {
                None
            },
            None => None,
        },
        None => None,
    }
}

/// The name of a channel's pre-fader solo.
pub open spec fn pre_fader_solo(channel: nat) -> Seq<char> {
    "ch"@ + text::decimal(channel) + "_pfl"@
}

/// The name of a channel's post-fader solo.
pub open spec fn post_fader_solo(channel: nat) -> Seq<char> {
    "ch"@ + text::decimal(channel) + "_afl"@
}

/// Either solo property of a channel leads back to the channel. Channels are
/// counted from one, so there is none to lead back to for zero.
pub proof fn solo_names_lead_to_their_channel(channel: nat)
    requires
        channel <= usize::MAX,
    ensures
        solo_channel(pre_fader_solo(channel)) == if channel >= 1 {
            Some(channel)
        } else {
            None
        },
        solo_channel(post_fader_solo(channel)) == if channel >= 1 {
            Some(channel)
        } else {
            None
        },
{
    reveal_strlit("_pfl");
    reveal_strlit("_afl");
    let digits = text::decimal(channel);
    let owner = "ch"@ + digits;
    text::parse_reads_decimal(channel, usize::MAX as nat);
    assert(owner.subrange(0, "ch"@.len() as int) =~= "ch"@);
    assert(owner.skip("ch"@.len() as int) =~= digits);
    let pre = pre_fader_solo(channel);
    assert(pre.subrange(owner.len() as int, pre.len() as int) =~= "_pfl"@);
    assert(pre.take(owner.len() as int) =~= owner);
    let post = post_fader_solo(channel);
    assert(post.subrange(owner.len() as int, post.len() as int) =~= "_afl"@);
    assert(post.take(owner.len() as int) =~= owner);
    assert(post[post.len() - 3] == 'a');
    assert(!text::has_suffix(post, "_pfl"@)) by {
        if text::has_suffix(post, "_pfl"@) {
            assert(post.subrange(post.len() - 4, post.len() as int)[1] == "_pfl"@[1]);
        }
    }
}

} // verus!
