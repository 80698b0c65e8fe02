//! Refusing an input stream that an output block cannot carry.
//!
//! Output blocks decide what to do with a stream once its caps arrive. When the
//! answer is that it cannot go out, the operator is told why, in words that say
//! what to change.

use crate::text;
use vstd::prelude::*;

verus! {

/// The reason why raw media is refused: which block to place before this one.
pub open spec fn raw_reason(
    block: Seq<char>,
    accepts: Seq<char>,
    kind: Seq<char>,
    encoder: Seq<char>,
) -> Seq<char> {
    block + " needs "@ + accepts + " "@ + kind + ", but its "@ + kind
        + " input is raw. Place a "@ + encoder
        + " block before it and link its encoded_out pad"@
}

/// The reason why another codec is refused: which property to change.
pub open spec fn codec_reason(
    block: Seq<char>,
    accepts: Seq<char>,
    kind: Seq<char>,
    encoder: Seq<char>,
    caps_name: Seq<char>,
) -> Seq<char> {
    block + " needs "@ + accepts + " "@ + kind + ", but its "@ + kind + " input carries "@
        + caps_name + ". Set "@ + encoder + "'s codec to one of those"@
}

fn write_raw(block: &str, accepts: &str, kind: &str, encoder: &str) -> (r: String)
    ensures
        r@ == raw_reason(block@, accepts@, kind@, encoder@),
{
    block.to_owned().concat(" needs ").concat(accepts).concat(" ").concat(kind).concat(
        ", but its ",
    ).concat(kind).concat(" input is raw. Place a ").concat(encoder).concat(
        " block before it and link its encoded_out pad",
    )
}

fn write_codec(block: &str, accepts: &str, kind: &str, encoder: &str, caps_name: &str) -> (r:
    String)
    ensures
        r@ == codec_reason(block@, accepts@, kind@, encoder@, caps_name@),
{
    block.to_owned().concat(" needs ").concat(accepts).concat(" ").concat(kind).concat(
        ", but its ",
    ).concat(kind).concat(" input carries ").concat(caps_name).concat(". Set ").concat(
        encoder,
    ).concat("'s codec to one of those")
}

/// The reason to give when an output block that needs encoded video gets
/// something else.
pub open spec fn video_reason(block: Seq<char>, accepts: Seq<char>, caps_name: Seq<char>) -> Seq<
    char,
> {
    if caps_name == "video/x-raw"@ {
        raw_reason(block, accepts, "video"@, "builtin.videoenc"@)
    } else {
        codec_reason(block, accepts, "video"@, "builtin.videoenc"@, caps_name)
    }
}

/// The reason to give when an output block gets audio that it cannot carry.
pub open spec fn audio_reason(block: Seq<char>, accepts: Seq<char>, caps_name: Seq<char>) -> Seq<
    char,
> {
    if caps_name == "audio/x-raw"@ {
        raw_reason(block, accepts, "audio"@, "builtin.audioenc"@)
    } else {
        codec_reason(block, accepts, "audio"@, "builtin.audioenc"@, caps_name)
    }
}

/// The reason to give when an output block that needs encoded video gets
/// something else. `accepts` names the codecs that the block takes, as the
/// operator reads them.
pub fn video_refusal(block: &str, accepts: &str, caps_name: &str) -> (r: String)
    ensures
        r@ == video_reason(block@, accepts@, caps_name@),
{
    if text::same(caps_name, "video/x-raw") {
        write_raw(block, accepts, "video", "builtin.videoenc")
    } else {
        write_codec(block, accepts, "video", "builtin.videoenc", caps_name)
    }
}

/// The reason to give when an output block gets audio that it cannot carry.
pub fn audio_refusal(block: &str, accepts: &str, caps_name: &str) -> (r: String)
    ensures
        r@ == audio_reason(block@, accepts@, caps_name@),
{
    if text::same(caps_name, "audio/x-raw") {
        write_raw(block, accepts, "audio", "builtin.audioenc")
    } else {
        write_codec(block, accepts, "audio", "builtin.audioenc", caps_name)
    }
}

/// A stream that is not raw is refused by the name of what it carries.
pub proof fn refusal_names_what_arrived(
    block: Seq<char>,
    accepts: Seq<char>,
    caps_name: Seq<char>,
)
    ensures
        caps_name != "video/x-raw"@ ==> text::contains_text(
            video_reason(block, accepts, caps_name),
            caps_name,
        ),
        caps_name != "audio/x-raw"@ ==> text::contains_text(
            audio_reason(block, accepts, caps_name),
            caps_name,
        ),
{
    lemma_codec_reason_names(block, accepts, "video"@, "builtin.videoenc"@, caps_name);
    lemma_codec_reason_names(block, accepts, "audio"@, "builtin.audioenc"@, caps_name);
}

proof fn lemma_codec_reason_names(
    block: Seq<char>,
    accepts: Seq<char>,
    kind: Seq<char>,
    encoder: Seq<char>,
    caps_name: Seq<char>,
)
    ensures
        text::contains_text(codec_reason(block, accepts, kind, encoder, caps_name), caps_name),
{
    let whole = codec_reason(block, accepts, kind, encoder, caps_name);
    let before = block + " needs "@ + accepts + " "@ + kind + ", but its "@ + kind
        + " input carries "@;
    assert(whole.subrange(before.len() as int, (before.len() + caps_name.len()) as int)
        =~= caps_name);
    assert(text::occurs_at(whole, caps_name, before.len() as int));
}

} // verus!
