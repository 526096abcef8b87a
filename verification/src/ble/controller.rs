//! The connector through which an HCI host stack talks to the controller.

use vstd::prelude::*;
use crate::ble::{
    hci_stream, is_complete, read_hci, send_hci, HciOutCollector, HciOutPacket, HciReader,
    HCI_BUFFER_SIZE,
};
use crate::compat::circbuf::ReceivedPacket;
use crate::compat::queue::SimpleQueue;

verus! {

/// The host stack's end of the link: it reads what was received byte by
/// byte and writes what it sends byte by byte.
pub struct BleConnector {
    reader: HciReader,
    hci_out: HciOutCollector,
}

impl BleConnector {
    /// The representation invariant: nothing written waits as a full packet.
    pub closed spec fn wf(&self) -> bool {
        self.reader.wf() && self.hci_out.wf() && !self.hci_out.ready()
    }

    /// The bytes of the received packet in hand that the host has not read.
    pub closed spec fn incoming(&self) -> Seq<u8> {
        self.reader@
    }

    /// The bytes that the host has written since the last full packet.
    pub closed spec fn outgoing(&self) -> Seq<u8> {
        self.hci_out@
    }

    /// A connector with nothing read and nothing written.
    pub fn new() -> (connector: BleConnector)
        ensures
            connector.wf(),
            connector.incoming() == Seq::<u8>::empty(),
            connector.outgoing() == Seq::<u8>::empty(),
    {
        BleConnector { reader: HciReader::new(), hci_out: HciOutCollector::new() }
    }

    /// Number of bytes that the host has written since the last full
    /// packet.
    pub fn outgoing_len(&self) -> (len: usize)
        requires
            self.wf(),
        ensures
            len == self.outgoing().len(),
    {
        self.hci_out.len()
    }

    /// The next byte of what was received, if there is one.
    pub fn read(&mut self, queue: &mut SimpleQueue<ReceivedPacket>) -> (byte: Option<u8>)
        requires
            old(self).wf(),
            old(queue).wf(),
        ensures
            final(self).wf(),
            final(queue).wf(),
            final(queue).capacity() == old(queue).capacity(),
            final(self).outgoing() == old(self).outgoing(),
            final(queue)@ == if old(self).incoming().len() == 0 && old(queue)@.len() > 0 {
                old(queue)@.skip(1)
            } else {
                old(queue)@
            },
            hci_stream(old(self).incoming(), old(queue)@).len() == 0 ==> byte is None && final(self).incoming() == old(self).incoming(),
            hci_stream(old(self).incoming(), old(queue)@).len() > 0 ==> byte == Some(
                hci_stream(old(self).incoming(), old(queue)@)[0],
            ) && final(self).incoming() == hci_stream(old(self).incoming(), old(queue)@).skip(1),
    {
        let mut buffer: Vec<u8> = Vec::new();
        buffer.push(0u8);
        let len = read_hci(&mut self.reader, queue, &mut buffer);
        if len == 0 {
            None
        } else {
            Some(buffer[0])
        }
    }

    /// The host writes `data`. When the bytes written since the last packet
    /// then make up a packet, that packet is returned for the driver, under
    /// the driver's number for its kind and without its indicator byte, and
    /// collecting starts anew. Until then the bytes are kept and nothing is
    /// returned.
    pub fn send(&mut self, data: &[u8]) -> (packet: Option<HciOutPacket>)
        requires
            old(self).wf(),
            old(self).outgoing().len() + data.len() <= HCI_BUFFER_SIZE,
        ensures
            final(self).wf(),
            final(self).incoming() == old(self).incoming(),
            (packet is Some) == is_complete(old(self).outgoing() + data@),
            packet is None ==> final(self).outgoing() == old(self).outgoing() + data@,
            packet matches Some(p) ==> {
                &&& final(self).outgoing() == Seq::<u8>::empty()
                &&& p.packet_type == crate::ble::driver_type_of((old(self).outgoing() + data@)[0])
                &&& p.payload@ == (old(self).outgoing() + data@).skip(1)
            },
    {
        send_hci(&mut self.hci_out, data)
    }

    /// The host writes one byte. When that byte completes a packet, the
    /// packet is returned for the driver.
    pub fn write(&mut self, data: u8) -> (packet: Option<HciOutPacket>)
        requires
            old(self).wf(),
            old(self).outgoing().len() < HCI_BUFFER_SIZE,
        ensures
            final(self).wf(),
            final(self).incoming() == old(self).incoming(),
            (packet is Some) == is_complete(old(self).outgoing().push(data)),
            packet is None ==> final(self).outgoing() == old(self).outgoing().push(data),
            packet matches Some(p) ==> {
                &&& final(self).outgoing() == Seq::<u8>::empty()
                &&& p.packet_type == crate::ble::driver_type_of(old(self).outgoing().push(data)[0])
                &&& p.payload@ == old(self).outgoing().push(data).skip(1)
            },
    {
        let mut one: Vec<u8> = Vec::new();
        one.push(data);
        assert(old(self).outgoing() + one@ =~= old(self).outgoing().push(data));
        self.send(one.as_slice())
    }

    /// The time for the host stack, in milliseconds, from the system
    /// clock's reading.
    pub fn millis(&self, now: u32) -> (millis: u64)
        ensures
            millis == now,
    {
        now as u64
    }
}

} // verus!
