//! What is refused, and what is said of it.
use vstd::prelude::*;
use vstd::string::*;

use crate::text::{decimal, push_decimal};

verus! {

/// Why a frame, a transmission or a target was refused.
#[derive(Clone, Debug, PartialEq, Eq)]
pub enum ZigbeeError {
    /// A payload that one frame does not carry.
    FrameTooLarge,
    /// Bytes that the MAC does not carry.
    OverMac,
    /// A frame cut off inside its headers.
    CutOff,
    /// A network frame that is not data.
    NotData,
    /// A fragmentation code Zigbee does not use.
    FragmentationCode { code: u8 },
    /// A Stream of `length` bytes, where a transmission carries `ceiling`.
    OverCeiling { length: usize, ceiling: usize },
    /// A first block while another transmission is under way.
    AnotherUnderWay,
    /// A block of a transmission that did not start.
    NotStarted,
    /// A block under another counter.
    AnotherCounter,
    /// A block beyond the count.
    BeyondCount,
    /// No acknowledgement came in time.
    NoAcknowledgement,
    /// An acknowledgement of something else.
    AnotherAcknowledgement,
    /// The sender stopped inside a transmission.
    SenderQuiet,
    /// A target path that is not a node and endpoint.
    NotANode { path: String },
    /// The far end of a radio that is not a loopback radio.
    NotLoopback,
    /// A loopback radio whose node has taken nothing whole.
    NothingCompleted,
    /// What the radio itself says, and whether trying again may help.
    Radio { message: String, retryable: bool },
}

/// A text as a debugging reader sees it: between double quotes, and with what
/// cannot be printed, quotes and backslashes escaped.
pub uninterp spec fn debug_text(text: Seq<char>) -> Seq<char>;

/// Writes a text with `format!` and `{:?}`, the `Debug` of `str`: what comes
/// out is named, not spelt out, since what is escaped goes by the tables of
/// printable characters.
#[verifier::external_body]
fn debug_of(text: &str) -> (quoted: String)
    ensures
        quoted@ == debug_text(text@),
{
    format!("{:?}", text)
}

/// What is said of a path that is not a node and endpoint, once the path is
/// quoted.
pub fn not_a_node(quoted: String) -> (message: String)
    ensures
        message@ == quoted@ + " is not a node and endpoint"@,
{
    quoted.concat(" is not a node and endpoint")
}

impl ZigbeeError {
    /// What is said of it.
    pub open spec fn said(self) -> Seq<char> {
        match self {
            ZigbeeError::FrameTooLarge => "more than one frame carries"@,
            ZigbeeError::OverMac => "more than the MAC carries"@,
            ZigbeeError::CutOff => "a frame cut off inside its headers"@,
            ZigbeeError::NotData => "a network frame that is not data"@,
            ZigbeeError::FragmentationCode { code } =>
                "a fragmentation code Zigbee does not use: "@ + decimal(code as nat),
            ZigbeeError::OverCeiling { length, ceiling } => decimal(length as nat)
                + " bytes, over the "@ + decimal(ceiling as nat)
                + " a fragmented transmission carries"@,
            ZigbeeError::AnotherUnderWay => "a first block while another is under way"@,
            ZigbeeError::NotStarted => "a block of a transmission that did not start"@,
            ZigbeeError::AnotherCounter => "a block under another counter"@,
            ZigbeeError::BeyondCount => "a block beyond the count"@,
            ZigbeeError::NoAcknowledgement => "no acknowledgement came"@,
            ZigbeeError::AnotherAcknowledgement => "an acknowledgement of something else"@,
            ZigbeeError::SenderQuiet => "the sender went quiet"@,
            ZigbeeError::NotANode { path } => debug_text(path@) + " is not a node and endpoint"@,
            ZigbeeError::NotLoopback => "a radio, not a loopback radio"@,
            ZigbeeError::NothingCompleted => "no transmission completed"@,
            ZigbeeError::Radio { message, .. } => message@,
        }
    }

    /// What is said of it.
    #[must_use]
    pub fn message(&self) -> (message: String)
        ensures
            message@ == self.said(),
    {
        match self {
            ZigbeeError::FrameTooLarge => "more than one frame carries".to_owned(),
            ZigbeeError::OverMac => "more than the MAC carries".to_owned(),
            ZigbeeError::CutOff => "a frame cut off inside its headers".to_owned(),
            ZigbeeError::NotData => "a network frame that is not data".to_owned(),
            ZigbeeError::FragmentationCode { code } => {
                let mut message = "a fragmentation code Zigbee does not use: ".to_owned();
                push_decimal(&mut message, *code as u64);
                message
            },
            ZigbeeError::OverCeiling { length, ceiling } => {
                let mut message = String::new();
                push_decimal(&mut message, *length as u64);
                assert(message@ =~= decimal(*length as nat));
                message.append(" bytes, over the ");
                push_decimal(&mut message, *ceiling as u64);
                message.append(" a fragmented transmission carries");
                message
            },
            ZigbeeError::AnotherUnderWay => "a first block while another is under way".to_owned(),
            ZigbeeError::NotStarted => "a block of a transmission that did not start".to_owned(),
            ZigbeeError::AnotherCounter => "a block under another counter".to_owned(),
            ZigbeeError::BeyondCount => "a block beyond the count".to_owned(),
            ZigbeeError::NoAcknowledgement => "no acknowledgement came".to_owned(),
            ZigbeeError::AnotherAcknowledgement =>
                "an acknowledgement of something else".to_owned(),
            ZigbeeError::SenderQuiet => "the sender went quiet".to_owned(),
            ZigbeeError::NotANode { path } => not_a_node(debug_of(path.as_str())),
            ZigbeeError::NotLoopback => "a radio, not a loopback radio".to_owned(),
            ZigbeeError::NothingCompleted => "no transmission completed".to_owned(),
            ZigbeeError::Radio { message, .. } => message.clone(),
        }
    }

    /// Whether trying again may help: where something did not come in time,
    /// or where the radio says so.
    pub open spec fn passes(self) -> bool {
        match self {
            ZigbeeError::NoAcknowledgement | ZigbeeError::SenderQuiet => true,
            ZigbeeError::Radio { retryable, .. } => retryable,
            _ => false,
        }
    }

    /// Whether trying again may help.
    #[must_use]
    pub fn is_retryable(&self) -> (retryable: bool)
        ensures
            retryable == self.passes(),
    {
        match self {
            ZigbeeError::NoAcknowledgement => true,
            ZigbeeError::SenderQuiet => true,
            ZigbeeError::Radio { retryable, .. } => *retryable,
            _ => false,
        }
    }
}

} // verus!
