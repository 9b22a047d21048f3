//! The ways to reach a robot.

use crate::id_filter::RobotIdFilter;
use crate::time::Instant;
use crate::transceivers::address::{AddressView, RobotTransceiverAddress};
use vstd::prelude::*;

pub mod address;
pub mod discovery;
pub mod group;
pub mod serial;
pub mod timeouts;
pub mod udp;

verus! {

/// A failed input or output operation.
#[derive(Clone, Debug)]
pub struct TransceiverError {
    pub msg: String,
    /// The report of the operating system.
    pub source: Option<String>,
}

impl TransceiverError {
    /// The text of the error.
    pub open spec fn text(&self) -> Seq<char> {
        match self.source {
            Some(source) => self.msg@ + ": "@ + source@,
            None => self.msg@,
        }
    }

    /// Formats the error for the user.
    pub fn message(&self) -> (s: String)
        ensures
            s@ == self.text(),
    {
        let mut s: String = self.msg.clone();
        if let Some(source) = &self.source {
            s.append(": ");
            s.append(source.as_str());
        }
        s
    }
}

/// What a transceiver reports to the driver.
#[derive(Debug)]
pub enum TransceiverEvent {
    Connected(RobotTransceiverAddress, u8),
    Disconnected(RobotTransceiverAddress),
    PacketReceived(RobotTransceiverAddress, Vec<u8>, Instant),
    Error(TransceiverError),
}

impl From<TransceiverError> for TransceiverEvent {
    fn from(value: TransceiverError) -> (event: Self) {
        TransceiverEvent::Error(value)
    }
}

impl vstd::std_specs::convert::FromSpecImpl<TransceiverError> for TransceiverEvent {
    open spec fn obeys_from_spec() -> bool {
        true
    }

    open spec fn from_spec(value: TransceiverError) -> Self {
        TransceiverEvent::Error(value)
    }
}

/// A way to reach robots.
pub trait Transceiver: Sized {
    spec fn valid(&self) -> bool;

    /// The robots that it connects to.
    spec fn filter(&self) -> RobotIdFilter;

    /// When it has something to do at the latest.
    spec fn deadline(&self) -> Instant;

    fn set_id_filter(&mut self, id_filter: RobotIdFilter)
        requires
            old(self).valid(),
        ensures
            final(self).valid(),
            final(self).filter() == id_filter,
            final(self).deadline() == old(self).deadline(),
    ;

    fn next_timeout(&self) -> (t: Instant)
        ensures
            t == self.deadline(),
    ;
}

/// The contents of a [TransceiverEvent].
pub ghost enum EventView {
    Connected(AddressView, u8),
    Disconnected(AddressView),
    PacketReceived(AddressView, Seq<u8>, Instant),
    Error(Seq<char>),
}

impl View for TransceiverEvent {
    type V = EventView;

    open spec fn view(&self) -> EventView {
        match self {
            TransceiverEvent::Connected(addr, id) => EventView::Connected(addr@, *id),
            TransceiverEvent::Disconnected(addr) => EventView::Disconnected(addr@),
            TransceiverEvent::PacketReceived(addr, bytes, received_on) => EventView::PacketReceived(
                addr@,
                bytes@,
                *received_on,
            ),
            TransceiverEvent::Error(error) => EventView::Error(error.text()),
        }
    }
}

/// An error is told by its message, and by its cause behind a colon if that is known.
pub proof fn law_error_text(error: TransceiverError)
    ensures
        error.source is None ==> error.text() == error.msg@,
        error.source is Some ==> {
            let n = error.msg@.len() as int;
            &&& error.text().take(n) == error.msg@
            &&& error.text()[n] == ':' && error.text()[n + 1] == ' '
            &&& error.text().skip(n + 2) == error.source->0@
        },
{
    reveal_strlit(": ");
    if error.source is Some {
        let n = error.msg@.len() as int;
        assert(error.text().take(n) =~= error.msg@);
        assert(error.text().skip(n + 2) =~= error.source->0@);
    }
}

} // verus!
