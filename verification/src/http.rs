//! Replies that endpoints give.

use vstd::prelude::*;

verus! {

/// A status and the text that goes with it.
pub struct Reply {
    pub status: u16,
    pub body: String,
}

/// What a reply is: its status and its text.
pub type ReplyInfo = (u16, Seq<char>);

impl View for Reply {
    type V = ReplyInfo;

    open spec fn view(&self) -> ReplyInfo {
        (self.status, self.body@)
    }
}

/// A header of a request.
pub enum HeaderField {
    /// The request does not carry it.
    Absent,
    /// It is there, and is no plain text.
    Unreadable,
    Value(String),
}

/// What a request says in a header.
pub enum HeaderInfo {
    Absent,
    Unreadable,
    Value(Seq<char>),
}

impl View for HeaderField {
    type V = HeaderInfo;

    open spec fn view(&self) -> HeaderInfo {
        match self {
            HeaderField::Absent => HeaderInfo::Absent,
            HeaderField::Unreadable => HeaderInfo::Unreadable,
            HeaderField::Value(s) => HeaderInfo::Value(s@),
        }
    }
}

pub fn reply(status: u16, body: &str) -> (r: Reply)
    ensures
        r@ == (status, body@),
{
    Reply { status, body: body.to_owned() }
}

} // verus!
