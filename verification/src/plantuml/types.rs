//! The arrows of a sequence diagram.

use crate::events::MessageType;
use crate::text::{spells, to_chars};
use vstd::prelude::*;

verus! {

/// The shape of a message arrow.
#[derive(Debug, Clone, Copy, PartialEq, Eq, Structural)]
pub enum ArrowType {
    /// `->`
    SolidSync,
    /// `->>`
    SolidAsync,
    /// `-->`
    DashedSync,
    /// `-->>`
    DashedAsync,
    /// `<-`
    LeftSync,
    /// `<<-`
    LeftAsync,
    /// `<--`
    LeftDashedSync,
    /// `<<--`
    LeftDashedAsync,
    /// `<->`
    BiDirectional,
    /// `<-->`
    BiDashedDirectional,
    /// `-\`
    Lost,
    /// `\-`
    Found,
    /// `\\`
    SelfCall,
}

/// The arrow that a token writes, if it is one of the known shapes.
pub open spec fn arrow_of(token: Seq<char>) -> Option<ArrowType> {
    if token == "->"@ {
        Some(ArrowType::SolidSync)
    } else if token == "->>"@ {
        Some(ArrowType::SolidAsync)
    } else if token == "-->"@ {
        Some(ArrowType::DashedSync)
    } else if token == "-->>"@ {
        Some(ArrowType::DashedAsync)
    } else if token == "<-"@ {
        Some(ArrowType::LeftSync)
    } else if token == "<<-"@ {
        Some(ArrowType::LeftAsync)
    } else if token == "<--"@ {
        Some(ArrowType::LeftDashedSync)
    } else if token == "<<--"@ {
        Some(ArrowType::LeftDashedAsync)
    } else if token == "<->"@ {
        Some(ArrowType::BiDirectional)
    } else if token == "<-->"@ {
        Some(ArrowType::BiDashedDirectional)
    } else if token == "-\\"@ {
        Some(ArrowType::Lost)
    } else if token == "\\-"@ {
        Some(ArrowType::Found)
    } else if token == "\\\\"@ {
        Some(ArrowType::SelfCall)
    } else {
        None
    }
}

impl ArrowType {
    /// The kind of message that the arrow sends: the dashed shapes are
    /// returns, the thin-headed solid ones asynchronous, all others synchronous.
    pub open spec fn message_type(self) -> MessageType {
        match self {
            ArrowType::SolidAsync | ArrowType::LeftAsync => MessageType::Asynchronous,
            ArrowType::DashedSync
            | ArrowType::DashedAsync
            | ArrowType::LeftDashedSync
            | ArrowType::LeftDashedAsync
            | ArrowType::BiDashedDirectional => MessageType::Return,
            _ => MessageType::Synchronous,
        }
    }

    /// Whether the arrow points from its right-hand side to its left-hand side.
    pub open spec fn reversed(self) -> bool {
        self == ArrowType::LeftSync || self == ArrowType::LeftAsync || self
            == ArrowType::LeftDashedSync || self == ArrowType::LeftDashedAsync || self
            == ArrowType::Found
    }

    /// Reads an arrow token.
    pub fn parse_arrow(s: &str) -> (r: Option<Self>)
        ensures
            r == arrow_of(s@),
    {
        let token = to_chars(s);
        Self::from_chars(token.as_slice())
    }

    /// Reads an arrow token given as characters.
    pub fn from_chars(token: &[char]) -> (r: Option<Self>)
        ensures
            r == arrow_of(token@),
    {
        if spells(token, "->") {
            Some(ArrowType::SolidSync)
        } else if spells(token, "->>") {
            Some(ArrowType::SolidAsync)
        } else if spells(token, "-->") {
            Some(ArrowType::DashedSync)
        } else if spells(token, "-->>") {
            Some(ArrowType::DashedAsync)
        } else if spells(token, "<-") {
            Some(ArrowType::LeftSync)
        } else if spells(token, "<<-") {
            Some(ArrowType::LeftAsync)
        } else if spells(token, "<--") {
            Some(ArrowType::LeftDashedSync)
        } else if spells(token, "<<--") {
            Some(ArrowType::LeftDashedAsync)
        } else if spells(token, "<->") {
            Some(ArrowType::BiDirectional)
        } else if spells(token, "<-->") {
            Some(ArrowType::BiDashedDirectional)
        } else if spells(token, "-\\") {
            Some(ArrowType::Lost)
        } else if spells(token, "\\-") {
            Some(ArrowType::Found)
        } else if spells(token, "\\\\") {
            Some(ArrowType::SelfCall)
        } else {
            None
        }
    }

    /// The kind of message that the arrow sends.
    pub fn to_message_type(self) -> (r: MessageType)
        ensures
            r == self.message_type(),
    {
        match self {
            ArrowType::SolidSync | ArrowType::LeftSync | ArrowType::BiDirectional => {
                MessageType::Synchronous
            },
            ArrowType::SolidAsync | ArrowType::LeftAsync => MessageType::Asynchronous,
            ArrowType::DashedSync
            | ArrowType::DashedAsync
            | ArrowType::LeftDashedSync
            | ArrowType::LeftDashedAsync
            | ArrowType::BiDashedDirectional => MessageType::Return,
            ArrowType::Lost | ArrowType::Found | ArrowType::SelfCall => MessageType::Synchronous,
        }
    }

    /// Whether the arrow points from its right-hand side to its left-hand side.
    pub fn is_reversed(self) -> (r: bool)
        ensures
            r == self.reversed(),
    {
        match self {
            ArrowType::LeftSync
            | ArrowType::LeftAsync
            | ArrowType::LeftDashedSync
            | ArrowType::LeftDashedAsync
            | ArrowType::Found => true,
            _ => false,
        }
    }
}

} // verus!
