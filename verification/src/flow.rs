//! The flows of an instance, as far as the endpoints read them.

use crate::properties::{Properties, PropertyMap};
use vstd::prelude::*;

verus! {

/// One block of a flow.
pub struct BlockInstance {
    pub id: String,
    pub block_definition_id: String,
    pub properties: Properties,
    /// The endpoint that a running WHEP output has.
    pub whep_endpoint_id: Option<String>,
}

/// What a block of a flow is.
pub struct BlockInfo {
    pub id: Seq<char>,
    pub block_definition_id: Seq<char>,
    pub properties: PropertyMap,
    pub whep_endpoint_id: Option<Seq<char>>,
}

impl View for BlockInstance {
    type V = BlockInfo;

    open spec fn view(&self) -> BlockInfo {
        BlockInfo {
            id: self.id@,
            block_definition_id: self.block_definition_id@,
            properties: self.properties@,
            whep_endpoint_id: match self.whep_endpoint_id {
                Some(id) => Some(id@),
                None => None,
            },
        }
    }
}

/// A connection from one pad of a flow to another, each written as
/// `component:pad`.
pub struct Link {
    pub from: String,
    pub to: String,
}

/// One flow.
pub struct Flow {
    pub id: u128,
    pub blocks: Vec<BlockInstance>,
    pub links: Vec<Link>,
}

pub open spec fn block_infos(blocks: Seq<BlockInstance>) -> Seq<BlockInfo> {
    blocks.map_values(|b: BlockInstance| b@)
}

/// The connections of a flow, from and to.
pub open spec fn link_ends(links: Seq<Link>) -> Seq<(Seq<char>, Seq<char>)> {
    links.map_values(|l: Link| (l.from@, l.to@))
}

} // verus!
