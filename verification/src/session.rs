//! What a transfer and the code that drives it say to each other.
//!
//! A transfer never touches the serial link itself. It hands out an
//! [`Action`], the driver performs it on the link, and reports what came of
//! it as an [`Event`]. The transfer then decides the next action.

use vstd::prelude::*;

verus! {

/// How a transfer ended.
#[derive(Clone, Copy, Debug, PartialEq, Eq, Structural)]
pub enum Outcome {
    /// Every chunk was transferred.
    Complete,
    /// A dump stopped because the radio had no more data to give.
    EndOfData,
    /// The image does not have the required size. Nothing was sent.
    SizeMismatch,
    /// The radio refused to erase its MCU flash: it is not in bootloader mode.
    EraseRejected,
    /// The radio refused a chunk that was written to it.
    WriteRejected,
    /// The serial link reported an error.
    LinkFailed,
}

/// What the driver reports after it has performed an action.
#[derive(Clone, Debug, PartialEq, Eq)]
pub enum Event {
    /// The bytes that were read from the link.
    Reply(Vec<u8>),
    /// Writing to the link or reading from it failed.
    LinkError,
}

/// An [`Event`] as a mathematical value.
pub enum EventView {
    Reply(Seq<u8>),
    LinkError,
}

impl View for Event {
    type V = EventView;

    open spec fn view(&self) -> EventView {
        match self {
            Event::Reply(bytes) => EventView::Reply(bytes@),
            Event::LinkError => EventView::LinkError,
        }
    }
}

/// What the driver is to do next.
#[derive(Clone, Debug, PartialEq, Eq)]
pub enum Action {
    /// Write all of `frame` to the link, then read exactly `reply_len` bytes.
    Send { frame: Vec<u8>, reply_len: usize },
    /// Read exactly `reply_len` more bytes for the request that is
    /// outstanding, without sending anything.
    Receive { reply_len: usize },
    /// Stop: the transfer has ended. Nothing more is to be sent or read.
    Finish(Outcome),
}

/// An [`Action`] as a mathematical value.
pub enum ActionView {
    Send { frame: Seq<u8>, reply_len: nat },
    Receive { reply_len: nat },
    Finish(Outcome),
}

impl View for Action {
    type V = ActionView;

    open spec fn view(&self) -> ActionView {
        match self {
            Action::Send { frame, reply_len } => ActionView::Send {
                frame: frame@,
                reply_len: *reply_len as nat,
            },
            Action::Receive { reply_len } => ActionView::Receive { reply_len: *reply_len as nat },
            Action::Finish(outcome) => ActionView::Finish(*outcome),
        }
    }
}

} // verus!
