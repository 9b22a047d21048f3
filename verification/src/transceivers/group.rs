//! All transceivers of a driver.

use crate::driver::{is_earliest, next_timeout};
use crate::id_filter::RobotIdFilter;
use crate::time::Instant;
use crate::transceivers::serial::{SerialTransceiver, SerialTransceiverConfig};
use crate::transceivers::udp::{UdpTokens, UdpTransceiver, UdpTransceiverConfig};
use crate::transceivers::Transceiver;
use vstd::prelude::*;

verus! {

/// The settings of a [TransceiverGroup].
#[derive(Clone, Copy, Debug, PartialEq, Eq, Structural, Hash)]
pub struct TransceiverGroupConfig {
    pub serial: SerialTransceiverConfig,
    pub udp: UdpTransceiverConfig,
}

/// All transceivers that could be started.
#[derive(Debug)]
pub struct TransceiverGroup {
    pub serial: Option<SerialTransceiver>,
    pub udp: Option<UdpTransceiver>,
}

/// The deadlines of the transceivers that could be started.
pub open spec fn deadlines(group: TransceiverGroup) -> Seq<Instant> {
    (match group.serial {
        Some(t) => seq![t.deadline()],
        None => Seq::empty(),
    }) + (match group.udp {
        Some(t) => seq![t.deadline()],
        None => Seq::empty(),
    })
}

impl TransceiverGroup {
    pub open spec fn wf(&self) -> bool {
        &&& self.serial matches Some(t) ==> t.wf()
        &&& self.udp matches Some(t) ==> t.wf()
    }

    /// Starts all transceivers. There is no udp transceiver if its sockets could not be bound.
    pub fn init_all(
        packet_size: usize,
        config: TransceiverGroupConfig,
        udp_tokens: Option<UdpTokens>,
        now: Instant,
    ) -> (group: Self)
        requires
            packet_size + 2 <= isize::MAX,
            udp_tokens matches Some(tokens) ==> tokens.distinct(),
            now.nanos + 1_000_000_000 <= u64::MAX,
        ensures
            group.wf(),
            match group.serial {
                Some(t) => {
                    &&& t.config() == config.serial
                    &&& t.packet_size() == packet_size
                    &&& t.conns().dom().is_empty()
                    &&& t.timeouts_cached()
                    &&& t.deadline() == now
                    &&& t.timeout().nanos == 1_000_000_000
                    &&& !t.discovery_active()
                    &&& forall|id: u8| t.filter().accepts(id)
                },
                None => false,
            },
            match group.udp {
                Some(t) => {
                    &&& udp_tokens == Some(t.tokens())
                    &&& t.timeouts().dom().is_empty()
                    &&& t.timeouts_cached()
                    &&& t.deadline().nanos == now.nanos + 1_000_000_000
                    &&& t.timeout().nanos == 1_000_000_000
                    &&& forall|id: u8| t.filter().accepts(id)
                },
                None => udp_tokens is None,
            },
    {
        TransceiverGroup {
            serial: Some(SerialTransceiver::start(packet_size, config.serial, now)),
            udp: match udp_tokens {
                Some(tokens) => Some(UdpTransceiver::start(tokens, now)),
                None => None,
            },
        }
    }

    /// Sets the robots that all transceivers connect to.
    pub fn set_id_filter(&mut self, id_filter: &RobotIdFilter)
        requires
            old(self).wf(),
        ensures
            final(self).wf(),
            deadlines(*final(self)) == deadlines(*old(self)),
            (final(self).serial is Some) == (old(self).serial is Some),
            (final(self).udp is Some) == (old(self).udp is Some),
            final(self).serial matches Some(t) ==> forall|id: u8|
                t.filter().accepts(id) == id_filter.accepts(id),
            final(self).udp matches Some(t) ==> forall|id: u8|
                t.filter().accepts(id) == id_filter.accepts(id),
            old(self).serial matches Some(t) ==> {
                let after = final(self).serial->0;
                &&& after.conns() == t.conns()
                &&& after.conn_timeout() == t.conn_timeout()
                &&& after.same_discovery(&t)
                &&& after.timeout() == t.timeout()
                &&& after.config() == t.config()
                &&& after.packet_size() == t.packet_size()
            },
            old(self).udp matches Some(t) ==> {
                let after = final(self).udp->0;
                &&& after.timeouts() == t.timeouts()
                &&& after.conn_timeout() == t.conn_timeout()
                &&& after.beacon_time() == t.beacon_time()
                &&& after.timeout() == t.timeout()
                &&& after.tokens() == t.tokens()
            },
    {
        if let Some(serial) = &mut self.serial {
            serial.set_id_filter(id_filter.clone());
        }
        if let Some(udp) = &mut self.udp {
            udp.set_id_filter(id_filter.clone());
        }
    }

    /// When any transceiver has something to do at the latest.
    pub fn next_timeout(&self) -> (r: Option<Instant>)
        ensures
            match r {
                Some(t) => is_earliest(deadlines(*self), t),
                None => self.serial is None && self.udp is None,
            },
    {
        let mut timeouts: Vec<Instant> = Vec::new();
        if let Some(serial) = &self.serial {
            timeouts.push(serial.next_timeout());
        }
        if let Some(udp) = &self.udp {
            timeouts.push(udp.next_timeout());
        }
        proof {
            assert(timeouts@ =~= deadlines(*self));
        }
        next_timeout(&timeouts)
    }
}

/// The group wakes up in time for everything that its transceivers have to do.
pub proof fn law_group_is_in_time(group: TransceiverGroup, t: Instant)
    requires
        is_earliest(deadlines(group), t),
    ensures
        group.serial is Some ==> {
            let serial = group.serial->0;
            &&& t.nanos <= serial.discovery_time().nanos
            &&& serial.conn_timeout() is Some ==> t.nanos <= serial.conn_timeout()->0.nanos
        },
        group.udp is Some ==> {
            let udp = group.udp->0;
            &&& t.nanos <= udp.beacon_time().nanos
            &&& udp.conn_timeout() is Some ==> t.nanos <= udp.conn_timeout()->0.nanos
        },
        group.serial is Some || group.udp is Some,
{
    let all = deadlines(group);
    if group.serial is Some {
        assert(all[0] == group.serial->0.deadline());
    }
    if group.udp is Some {
        assert(all[all.len() - 1] == group.udp->0.deadline());
    }
}

} // verus!
