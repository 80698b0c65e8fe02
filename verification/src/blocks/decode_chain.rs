//! Decoded video on its way out of a source block.
//!
//! The compositors behind a source reject interlaced frames, so what a source
//! decodes passes a `deinterlace` element. It starts in a mode that leaves
//! progressive video untouched. Mixed streams do not flag their interlaced frames,
//! so once caps show an interlaced source, deinterlacing is forced.

use crate::blocks::plan;
use crate::blocks::plan::{BlockPlan, ElementSpec, PlanInfo, SettingInfo, SettingValue};
use crate::text;
use vstd::prelude::*;

verus! {

/// The id of the element that deinterlaces what a pad delivers.
pub open spec fn deinterlacer(instance: Seq<char>, pad_label: Seq<char>) -> Seq<char> {
    plan::member(instance, "deinterlace_"@ + pad_label)
}

/// The chain between a decoded pad and the block's output.
pub open spec fn deinterlace_plan(
    instance: Seq<char>,
    pad_label: Seq<char>,
    output: Seq<char>,
) -> PlanInfo {
    let id = deinterlacer(instance, pad_label);
    plan::empty_plan().add(
        plan::plain_element(id, "deinterlace"@).with("mode"@, SettingInfo::Parsed("auto"@)),
    ).link(id, "src"@, output, "sink"@)
}

/// The chain between a decoded pad and the block's output. The decoded pad is
/// connected last, so that data flows only once the chain is complete.
pub fn link_raw_video_through_deinterlace(
    instance_id: &str,
    pad_label: &str,
    identity_id: &str,
) -> (r: BlockPlan)
    ensures
        r@ == deinterlace_plan(instance_id@, pad_label@, identity_id@),
{
    let name = "deinterlace_".to_owned().concat(pad_label);
    let id = plan::member_id(instance_id, name.as_str());
    let mut parts = BlockPlan::new();
    let mut e = ElementSpec::new(id.as_str(), "deinterlace");
    e.set("mode", SettingValue::Parsed("auto".to_owned()));
    parts.add(e);
    parts.link(id.as_str(), "src", identity_id, "sink");
    parts
}

/// Whether caps with an interlace mode are those of an interlaced source.
pub open spec fn is_interlaced(interlace_mode: Option<Seq<char>>) -> bool {
    interlace_mode == Some("interleaved"@) || interlace_mode == Some("mixed"@)
}

/// The mode to force on the deinterlacer once caps arrive, if any.
pub fn forced_mode(interlace_mode: Option<&str>) -> (r: Option<String>)
    ensures
        r is Some == is_interlaced(
            match interlace_mode {
                Some(mode) => Some(mode@),
                None => None,
            },
        ),
        r matches Some(mode) ==> mode@ == "interlaced"@,
{
    match interlace_mode {
        Some(mode) => if text::same(mode, "interleaved") || text::same(mode, "mixed") {
            Some("interlaced".to_owned())
        } else {
            None
        },
        None => None,
    }
}

} // verus!
