//! Versioned messages for out-of-process display plugins.

use vstd::prelude::*;

use crate::render::{PlanView, RenderPlan};

verus! {

pub const PROTOCOL_NAME: &'static str = "beckon.display";

pub const PROTOCOL_VERSION: u32 = 1;

/// One newline-delimited JSON message written to a display plugin's stdin.
#[derive(Debug)]
pub enum DisplayMessage<'a> {
    Hello { protocol: &'static str, version: u32, plugin_id: &'a str },
    Render { protocol: &'static str, version: u32, sequence: u64, plan: &'a RenderPlan },
}

pub enum MessageView {
    Hello { protocol: Seq<char>, version: u32, plugin_id: Seq<char> },
    Render { protocol: Seq<char>, version: u32, sequence: u64, plan: PlanView },
}

impl<'a> View for DisplayMessage<'a> {
    type V = MessageView;

    open spec fn view(&self) -> MessageView {
        match *self {
            DisplayMessage::Hello { protocol, version, plugin_id } => MessageView::Hello {
                protocol: protocol@,
                version,
                plugin_id: plugin_id@,
            },
            DisplayMessage::Render { protocol, version, sequence, plan } => MessageView::Render {
                protocol: protocol@,
                version,
                sequence,
                plan: plan@,
            },
        }
    }
}

impl<'a> DisplayMessage<'a> {
    /// The message that opens a session.
    pub fn hello(plugin_id: &'a str) -> (message: Self)
        ensures
            message@ == (MessageView::Hello {
                protocol: "beckon.display"@,
                version: 1,
                plugin_id: plugin_id@,
            }),
    {
        DisplayMessage::Hello { protocol: PROTOCOL_NAME, version: PROTOCOL_VERSION, plugin_id }
    }

    /// A complete snapshot.
    pub fn render(sequence: u64, plan: &'a RenderPlan) -> (message: Self)
        ensures
            message@ == (MessageView::Render {
                protocol: "beckon.display"@,
                version: 1,
                sequence,
                plan: plan@,
            }),
    {
        DisplayMessage::Render {
            protocol: PROTOCOL_NAME,
            version: PROTOCOL_VERSION,
            sequence,
            plan,
        }
    }
}

/// Frames one JSON text as a line. A compact JSON text holds no line break, so
/// the line ends in exactly one.
pub fn to_ndjson(json: Vec<u8>) -> (line: Vec<u8>)
    ensures
        line@ == json@.push(10),
        !json@.contains(10) ==> forall|i: int|
            0 <= i < line.len() ==> (#[trigger] line@[i] == 10 <==> i == line.len() - 1),
{
    let mut line = json;
    line.push(10);
    assert(forall|i: int| 0 <= i < json@.len() ==> line@[i] == json@[i]);
    line
}

} // verus!
