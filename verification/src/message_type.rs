//! The typed envelopes of the wire protocol and their fixed wire values.

use vstd::prelude::*;

verus! {

/// Sub-message kinds of a `Sync` or `SyncReply` envelope.
#[derive(Debug, Clone, Copy, PartialEq, Eq, Structural)]
pub enum DocMessage {
    Step1,
    Step2,
    Update,
}

/// The fixed wire value of a sync sub-message.
pub open spec fn doc_msg_code(m: DocMessage) -> u64 {
    match m {
        DocMessage::Step1 => 0,
        DocMessage::Step2 => 1,
        DocMessage::Update => 2,
    }
}

/// The sync sub-message a wire value stands for, if any.
pub open spec fn doc_msg_of(v: u64) -> Option<DocMessage> {
    if v == 0 {
        Some(DocMessage::Step1)
    } else if v == 1 {
        Some(DocMessage::Step2)
    } else if v == 2 {
        Some(DocMessage::Update)
    } else {
        None
    }
}

impl DocMessage {
    pub fn to_u64(self) -> (r: u64)
        ensures
            r == doc_msg_code(self),
    {
        match self {
            DocMessage::Step1 => 0,
            DocMessage::Step2 => 1,
            DocMessage::Update => 2,
        }
    }

    pub fn from_u64(v: u64) -> (r: Option<DocMessage>)
        ensures
            r == doc_msg_of(v),
    {
        if v == 0 {
            Some(DocMessage::Step1)
        } else if v == 1 {
            Some(DocMessage::Step2)
        } else if v == 2 {
            Some(DocMessage::Update)
        } else {
            None
        }
    }
}

/// Top-level message kinds of the protocol.
#[derive(Debug, Clone, Copy, PartialEq, Eq, Structural)]
pub enum MessageType {
    Sync,
    Awareness,
    Auth,
    QueryAwareness,
    SyncReply,
    Stateless,
    BroadcastStateless,
    Close,
    SyncStatus,
}

/// The fixed wire value of a message type.
pub open spec fn msg_type_code(m: MessageType) -> u64 {
    match m {
        MessageType::Sync => 0,
        MessageType::Awareness => 1,
        MessageType::Auth => 2,
        MessageType::QueryAwareness => 3,
        MessageType::SyncReply => 4,
        MessageType::Stateless => 5,
        MessageType::BroadcastStateless => 6,
        MessageType::Close => 7,
        MessageType::SyncStatus => 8,
    }
}

/// The message type a wire value stands for, if any.
pub open spec fn msg_type_of(v: u64) -> Option<MessageType> {
    if v == 0 {
        Some(MessageType::Sync)
    } else if v == 1 {
        Some(MessageType::Awareness)
    } else if v == 2 {
        Some(MessageType::Auth)
    } else if v == 3 {
        Some(MessageType::QueryAwareness)
    } else if v == 4 {
        Some(MessageType::SyncReply)
    } else if v == 5 {
        Some(MessageType::Stateless)
    } else if v == 6 {
        Some(MessageType::BroadcastStateless)
    } else if v == 7 {
        Some(MessageType::Close)
    } else if v == 8 {
        Some(MessageType::SyncStatus)
    } else {
        None
    }
}

impl MessageType {
    pub fn to_u64(self) -> (r: u64)
        ensures
            r == msg_type_code(self),
    {
        match self {
            MessageType::Sync => 0,
            MessageType::Awareness => 1,
            MessageType::Auth => 2,
            MessageType::QueryAwareness => 3,
            MessageType::SyncReply => 4,
            MessageType::Stateless => 5,
            MessageType::BroadcastStateless => 6,
            MessageType::Close => 7,
            MessageType::SyncStatus => 8,
        }
    }

    pub fn from_u64(v: u64) -> (r: Option<MessageType>)
        ensures
            r == msg_type_of(v),
    {
        if v == 0 {
            Some(MessageType::Sync)
        } else if v == 1 {
            Some(MessageType::Awareness)
        } else if v == 2 {
            Some(MessageType::Auth)
        } else if v == 3 {
            Some(MessageType::QueryAwareness)
        } else if v == 4 {
            Some(MessageType::SyncReply)
        } else if v == 5 {
            Some(MessageType::Stateless)
        } else if v == 6 {
            Some(MessageType::BroadcastStateless)
        } else if v == 7 {
            Some(MessageType::Close)
        } else if v == 8 {
            Some(MessageType::SyncStatus)
        } else {
            None
        }
    }
}

} // verus!
