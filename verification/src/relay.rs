//! One turn of the relay: a datagram comes in, packets go out.

use crate::forward::{forward_packet, views, ForwardRules, Transmission, TransmissionView};
use crate::interface::MachineIterface;
use crate::packet::GRAM_BUFFER_SIZE;
use crate::receive::{receive_broadcast, Dropped, Received};
use vstd::prelude::*;

verus! {

/// The packets to be sent for a datagram, or why there are none.
pub open spec fn relayed(
    received: Received,
    interfaces: Seq<MachineIterface>,
    rules: ForwardRules,
    buffer: Seq<u8>,
) -> Result<Seq<TransmissionView>, Dropped> {
    match received.outcome(interfaces, rules.ttl) {
        Ok(info) => Ok(rules.transmissions(received.ended(buffer), interfaces, info)),
        Err(dropped) => Err(dropped),
    }
}

/// The buffer after the turn.
pub open spec fn buffer_relayed(
    received: Received,
    interfaces: Seq<MachineIterface>,
    rules: ForwardRules,
    buffer: Seq<u8>,
) -> Seq<u8> {
    match received.outcome(interfaces, rules.ttl) {
        Ok(info) => rules.buffer_after(received.ended(buffer), interfaces, info),
        Err(_) => received.ended(buffer),
    }
}

/// Relays the datagram whose payload stands in the buffer.
pub fn relay_datagram(
    received: &Received,
    interfaces: &Vec<MachineIterface>,
    rules: ForwardRules,
    packet_buffer: &mut [u8; GRAM_BUFFER_SIZE],
) -> (r: Result<Vec<Transmission>, Dropped>)
    requires
        received.fits(),
    ensures
        match r {
            Ok(sent) => relayed(*received, interfaces@, rules, old(packet_buffer)@) == Ok::<
                Seq<TransmissionView>,
                Dropped,
            >(views(sent@)),
            Err(dropped) => relayed(*received, interfaces@, rules, old(packet_buffer)@) == Err::<
                Seq<TransmissionView>,
                Dropped,
            >(dropped),
        },
        final(packet_buffer)@ == buffer_relayed(
            *received,
            interfaces@,
            rules,
            old(packet_buffer)@,
        ),
{
    match receive_broadcast(received, interfaces, rules.ttl, packet_buffer) {
        Ok(info) => Ok(forward_packet(interfaces, rules, packet_buffer, &info)),
        Err(dropped) => Err(dropped),
    }
}

} // verus!
