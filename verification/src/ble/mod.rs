//! The host side of the Bluetooth link: a byte pipe between host and
//! controller, the framing of outgoing HCI packets and the byte-wise
//! delivery of received ones.

pub mod controller;

use vstd::prelude::*;
use crate::compat::circbuf::{BtPacketType, ReceivedPacket};
use crate::compat::queue::{ring_distance, ring_index, SimpleQueue};

verus! {

/// Number of bytes of each direction's ring in an [`HciPipe`], and of the
/// packet buffers.
pub const HCI_BUFFER_SIZE: usize = 256;

/// Two byte rings, one for each direction between host and controller.
/// Each ring holds up to 255 bytes.
pub struct HciPipe {
    wbuffer: [u8; 256],
    rbuffer: [u8; 256],
    w_write_idx: usize,
    w_read_idx: usize,
    r_write_idx: usize,
    r_read_idx: usize,
}

impl HciPipe {
    /// The ring that carries bytes from the controller to the host.
    pub closed spec fn host_ring(&self) -> Seq<u8> {
        self.wbuffer@
    }

    /// Where the host reads next in its ring.
    pub closed spec fn host_read_index(&self) -> int {
        self.w_read_idx as int
    }

    /// Where the controller writes next in the host's ring.
    pub closed spec fn host_write_index(&self) -> int {
        self.w_write_idx as int
    }

    /// The ring that carries bytes from the host to the controller.
    pub closed spec fn controller_ring(&self) -> Seq<u8> {
        self.rbuffer@
    }

    /// Where the controller reads next in its ring.
    pub closed spec fn controller_read_index(&self) -> int {
        self.r_read_idx as int
    }

    /// Where the host writes next in the controller's ring.
    pub closed spec fn controller_write_index(&self) -> int {
        self.r_write_idx as int
    }

    /// The representation invariant: every cursor lies inside its ring.
    pub open spec fn wf(&self) -> bool {
        &&& self.host_ring().len() == HCI_BUFFER_SIZE
        &&& self.controller_ring().len() == HCI_BUFFER_SIZE
        &&& 0 <= self.host_read_index() < HCI_BUFFER_SIZE
        &&& 0 <= self.host_write_index() < HCI_BUFFER_SIZE
        &&& 0 <= self.controller_read_index() < HCI_BUFFER_SIZE
        &&& 0 <= self.controller_write_index() < HCI_BUFFER_SIZE
    }

    /// The bytes that the controller wrote and the host has not read yet,
    /// oldest first.
    pub open spec fn to_host(&self) -> Seq<u8> {
        Seq::new(
            ring_distance(
                self.host_read_index(),
                self.host_write_index(),
                HCI_BUFFER_SIZE as int,
            ) as nat,
            |k: int| self.host_ring()[ring_index(self.host_read_index(), k, HCI_BUFFER_SIZE as int)],
        )
    }

    /// The bytes that the host wrote and the controller has not read yet,
    /// oldest first.
    pub open spec fn to_controller(&self) -> Seq<u8> {
        Seq::new(
            ring_distance(
                self.controller_read_index(),
                self.controller_write_index(),
                HCI_BUFFER_SIZE as int,
            ) as nat,
            |k: int|
                self.controller_ring()[ring_index(
                    self.controller_read_index(),
                    k,
                    HCI_BUFFER_SIZE as int,
                )],
        )
    }

    /// What a peek at `offset` bytes past the host's read position yields:
    /// nothing while no byte is pending and nothing where that position,
    /// taken round the ring, lies beyond the write position; else the byte
    /// stored there.
    pub open spec fn peeked(&self, offset: int) -> Option<u8> {
        let index = (self.host_read_index() + offset) % (HCI_BUFFER_SIZE as int);
        if self.host_write_index() == self.host_read_index() || index > self.host_write_index() {
            None
        } else {
            Some(self.host_ring()[index])
        }
    }

    /// The host's ring and its two cursors are the same in `self` and
    /// `other`.
    pub open spec fn same_host_side(&self, other: &HciPipe) -> bool {
        &&& self.host_ring() == other.host_ring()
        &&& self.host_read_index() == other.host_read_index()
        &&& self.host_write_index() == other.host_write_index()
    }

    /// The controller's ring and its two cursors are the same in `self` and
    /// `other`.
    pub open spec fn same_controller_side(&self, other: &HciPipe) -> bool {
        &&& self.controller_ring() == other.controller_ring()
        &&& self.controller_read_index() == other.controller_read_index()
        &&& self.controller_write_index() == other.controller_write_index()
    }

    /// A ring in which every byte is zero.
    pub open spec fn zeroed_ring() -> Seq<u8> {
        Seq::new(HCI_BUFFER_SIZE as nat, |i: int| 0u8)
    }

    /// A pipe with nothing pending in either direction: both rings hold
    /// zeros, and all four cursors stand at the rings' first byte.
    pub fn new() -> (pipe: HciPipe)
        ensures
            pipe.wf(),
            pipe.to_host() == Seq::<u8>::empty(),
            pipe.to_controller() == Seq::<u8>::empty(),
            pipe.host_ring() == Self::zeroed_ring(),
            pipe.controller_ring() == Self::zeroed_ring(),
            pipe.host_read_index() == 0,
            pipe.host_write_index() == 0,
            pipe.controller_read_index() == 0,
            pipe.controller_write_index() == 0,
    {
        let pipe = HciPipe {
            wbuffer: [0u8; 256],
            rbuffer: [0u8; 256],
            w_write_idx: 0,
            w_read_idx: 0,
            r_write_idx: 0,
            r_read_idx: 0,
        };
        assert(pipe.to_host() =~= Seq::<u8>::empty());
        assert(pipe.to_controller() =~= Seq::<u8>::empty());
        assert(pipe.host_ring() =~= Self::zeroed_ring());
        assert(pipe.controller_ring() =~= Self::zeroed_ring());
        pipe
    }

    /// Number of bytes that wait for the host.
    pub fn host_pending(&self) -> (pending: usize)
        requires
            self.wf(),
        ensures
            pending == self.to_host().len(),
    {
        if self.w_write_idx >= self.w_read_idx {
            self.w_write_idx - self.w_read_idx
        } else {
            self.w_write_idx + (HCI_BUFFER_SIZE - self.w_read_idx)
        }
    }

    /// Number of bytes that wait for the controller.
    pub fn controller_pending(&self) -> (pending: usize)
        requires
            self.wf(),
        ensures
            pending == self.to_controller().len(),
    {
        if self.r_write_idx >= self.r_read_idx {
            self.r_write_idx - self.r_read_idx
        } else {
            self.r_write_idx + (HCI_BUFFER_SIZE - self.r_read_idx)
        }
    }

    /// The controller takes the oldest byte that the host wrote, if any.
    /// Taking a byte moves the controller's read cursor one place on, round
    /// the end of the ring; nothing else changes.
    pub fn controller_read(&mut self) -> (byte: Option<u8>)
        requires
            old(self).wf(),
        ensures
            final(self).wf(),
            final(self).same_host_side(old(self)),
            final(self).controller_ring() == old(self).controller_ring(),
            final(self).controller_write_index() == old(self).controller_write_index(),
            final(self).controller_read_index() == if byte is Some {
                ring_index(old(self).controller_read_index(), 1, HCI_BUFFER_SIZE as int)
            } else {
                old(self).controller_read_index()
            },
            final(self).to_host() == old(self).to_host(),
            old(self).to_controller().len() == 0 ==> byte is None && final(self).to_controller()
                == old(self).to_controller(),
            old(self).to_controller().len() > 0 ==> byte == Some(old(self).to_controller()[0])
                && final(self).to_controller() == old(self).to_controller().skip(1),
    {
        if self.r_write_idx == self.r_read_idx {
            None
        } else {
            let r = self.rbuffer[self.r_read_idx];
            self.r_read_idx = self.r_read_idx + 1;
            if self.r_read_idx >= HCI_BUFFER_SIZE {
                self.r_read_idx = 0;
            }
            assert(self.to_controller() =~= old(self).to_controller().skip(1));
            assert(self.to_host() =~= old(self).to_host());
            Some(r)
        }
    }

    /// The controller hands a byte to the host: the byte goes into the
    /// host's ring at the write cursor, which moves one place on, round the
    /// end of the ring. A full ring is a fatal overflow, so callers rule it
    /// out.
    pub fn controller_write(&mut self, v: u8)
        requires
            old(self).wf(),
            old(self).to_host().len() < HCI_BUFFER_SIZE - 1,
        ensures
            final(self).wf(),
            final(self).same_controller_side(old(self)),
            final(self).host_ring() == old(self).host_ring().update(
                old(self).host_write_index(),
                v,
            ),
            final(self).host_read_index() == old(self).host_read_index(),
            final(self).host_write_index() == ring_index(
                old(self).host_write_index(),
                1,
                HCI_BUFFER_SIZE as int,
            ),
            final(self).to_host() == old(self).to_host().push(v),
            final(self).to_controller() == old(self).to_controller(),
    {
        self.wbuffer[self.w_write_idx] = v;
        self.w_write_idx = self.w_write_idx + 1;
        if self.w_write_idx >= HCI_BUFFER_SIZE {
            self.w_write_idx = 0;
        }
        assert(self.to_host() =~= old(self).to_host().push(v));
        assert(self.to_controller() =~= old(self).to_controller());
    }

    /// The host takes the oldest byte that the controller wrote, if any.
    /// Taking a byte moves the host's read cursor one place on, round the
    /// end of the ring; nothing else changes.
    pub fn host_read(&mut self) -> (byte: Option<u8>)
        requires
            old(self).wf(),
        ensures
            final(self).wf(),
            final(self).same_controller_side(old(self)),
            final(self).host_ring() == old(self).host_ring(),
            final(self).host_write_index() == old(self).host_write_index(),
            final(self).host_read_index() == if byte is Some {
                ring_index(old(self).host_read_index(), 1, HCI_BUFFER_SIZE as int)
            } else {
                old(self).host_read_index()
            },
            final(self).to_controller() == old(self).to_controller(),
            old(self).to_host().len() == 0 ==> byte is None && final(self).to_host() == old(self).to_host(),
            old(self).to_host().len() > 0 ==> byte == Some(old(self).to_host()[0]) && final(self).to_host() == old(self).to_host().skip(1),
    {
        if self.w_write_idx == self.w_read_idx {
            None
        } else {
            let r = self.wbuffer[self.w_read_idx];
            self.w_read_idx = self.w_read_idx + 1;
            if self.w_read_idx >= HCI_BUFFER_SIZE {
                self.w_read_idx = 0;
            }
            assert(self.to_host() =~= old(self).to_host().skip(1));
            assert(self.to_controller() =~= old(self).to_controller());
            Some(r)
        }
    }

    /// The host looks at the byte `offset` places past its read position
    /// without taking it. Where the pending bytes do not wrap round the end
    /// of the ring, an offset below their number yields the byte at that
    /// place among them.
    pub fn host_peek(&mut self, offset: usize) -> (byte: Option<u8>)
        requires
            old(self).wf(),
        ensures
            *final(self) == *old(self),
            byte == old(self).peeked(offset as int),
            old(self).host_read_index() <= old(self).host_write_index() && offset < old(self).to_host().len() ==> byte == Some(old(self).to_host()[offset as int]),
    {
        if self.w_write_idx == self.w_read_idx {
            None
        } else {
            let index = (self.w_read_idx + offset % HCI_BUFFER_SIZE) % HCI_BUFFER_SIZE;
            if index > self.w_write_idx {
                None
            } else {
                Some(self.wbuffer[index])
            }
        }
    }

    /// The host hands a byte to the controller: the byte goes into the
    /// controller's ring at the write cursor, which moves one place on,
    /// round the end of the ring. A full ring is a fatal overflow, so
    /// callers rule it out.
    pub fn host_write(&mut self, v: u8)
        requires
            old(self).wf(),
            old(self).to_controller().len() < HCI_BUFFER_SIZE - 1,
        ensures
            final(self).wf(),
            final(self).same_host_side(old(self)),
            final(self).controller_ring() == old(self).controller_ring().update(
                old(self).controller_write_index(),
                v,
            ),
            final(self).controller_read_index() == old(self).controller_read_index(),
            final(self).controller_write_index() == ring_index(
                old(self).controller_write_index(),
                1,
                HCI_BUFFER_SIZE as int,
            ),
            final(self).to_controller() == old(self).to_controller().push(v),
            final(self).to_host() == old(self).to_host(),
    {
        self.rbuffer[self.r_write_idx] = v;
        self.r_write_idx = self.r_write_idx + 1;
        if self.r_write_idx >= HCI_BUFFER_SIZE {
            self.r_write_idx = 0;
        }
        assert(self.to_controller() =~= old(self).to_controller().push(v));
        assert(self.to_host() =~= old(self).to_host());
    }
}

/// What kind of packet the host is sending, as far as its first byte tells.
#[derive(PartialEq, Eq, Debug, Clone, Copy, Structural)]
pub enum HciOutType {
    Unknown,
    Acl,
    Command,
}

/// The kind of packet that starts with the indicator byte `first`.
pub open spec fn out_type_of(first: u8) -> HciOutType {
    if first == 1 {
        HciOutType::Command
    } else if first == 2 {
        HciOutType::Acl
    } else {
        HciOutType::Unknown
    }
}

/// The kind of the packet that `bytes` is, or begins.
pub open spec fn out_type(bytes: Seq<u8>) -> HciOutType {
    if bytes.len() == 0 {
        HciOutType::Unknown
    } else {
        out_type_of(bytes[0])
    }
}

/// `bytes` is exactly one packet. A command is its indicator, two bytes of
/// opcode, a length byte and that many bytes of parameters. An ACL packet
/// is its indicator, two bytes of handle, a length of two bytes, low byte
/// first, and that many bytes of data.
pub open spec fn is_complete(bytes: Seq<u8>) -> bool {
    ||| out_type(bytes) == HciOutType::Command && bytes.len() >= 4 && bytes.len() == bytes[3] + 4
    ||| out_type(bytes) == HciOutType::Acl && bytes.len() >= 5 && bytes.len() == bytes[3] + bytes[4]
        * 256 + 5
}

/// The kind of packet, as the driver numbers them, under which the host
/// sends a packet that starts with the indicator byte `first`.
pub open spec fn driver_type_of(first: u8) -> u8 {
    if first == 2 {
        BtPacketType::BtAclOut.spec_code()
    } else if first == 3 {
        BtPacketType::BtAclIn.spec_code()
    } else if first == 4 {
        BtPacketType::BtEvt.spec_code()
    } else {
        BtPacketType::BtCmd.spec_code()
    }
}

/// Collects the bytes that the host sends until they make up one packet.
pub struct HciOutCollector {
    data: [u8; 256],
    index: usize,
    ready: bool,
    kind: HciOutType,
}

impl HciOutCollector {
    /// The bytes collected so far.
    pub closed spec fn view(&self) -> Seq<u8> {
        self.data@.take(self.index as int)
    }

    /// Whether the bytes collected made up one packet after some push since
    /// the last reset.
    pub closed spec fn ready(&self) -> bool {
        self.ready
    }

    /// The representation invariant: the bytes fit the buffer, and their kind is
    /// that of their first byte.
    pub closed spec fn wf(&self) -> bool {
        &&& self.index <= HCI_BUFFER_SIZE
        &&& self.kind == out_type(self@)
    }

    /// A collector that holds nothing.
    pub fn new() -> (collector: HciOutCollector)
        ensures
            collector.wf(),
            collector@ == Seq::<u8>::empty(),
            !collector.ready(),
    {
        HciOutCollector { data: [0u8; 256], index: 0, ready: false, kind: HciOutType::Unknown }
    }

    /// Whether the bytes collected made up one packet.
    pub fn is_ready(&self) -> (ready: bool)
        ensures
            ready == self.ready(),
    {
        self.ready
    }

    /// Number of bytes collected so far.
    pub fn len(&self) -> (len: usize)
        requires
            self.wf(),
        ensures
            len == self@.len(),
    {
        self.index
    }

    /// Appends `data` to the bytes collected. The collector becomes ready
    /// when they then are exactly one packet, and stays ready once it is.
    /// More bytes than the buffer holds are fatal, so callers rule them out.
    pub fn push(&mut self, data: &[u8])
        requires
            old(self).wf(),
            old(self)@.len() + data.len() <= HCI_BUFFER_SIZE,
        ensures
            final(self).wf(),
            final(self)@ == old(self)@ + data@,
            final(self).ready() == (old(self).ready() || is_complete(final(self)@)),
    {
        let mut i: usize = 0;
        while i < data.len()
            invariant
                i <= data.len(),
                self.index == old(self).index + i,
                old(self).index + data.len() <= HCI_BUFFER_SIZE,
                self.ready == old(self).ready,
                self.kind == old(self).kind,
                self@ == old(self)@ + data@.take(i as int),
            decreases data.len() - i,
        {
            let ghost prior = self@;
            self.data[self.index] = data[i];
            self.index = self.index + 1;
            i = i + 1;
            assert(self@ =~= prior.push(data@[i - 1]));
            assert(self@ =~= old(self)@ + data@.take(i as int));
        }
        assert(data@.take(data.len() as int) =~= data@);
        if self.kind == HciOutType::Unknown && self.index > 0 {
            let first = self.data[0];
            self.kind = if first == 1 {
                HciOutType::Command
            } else if first == 2 {
                HciOutType::Acl
            } else {
                HciOutType::Unknown
            };
        }
        proof {
            if old(self)@.len() > 0 {
                assert(self@[0] == old(self)@[0]);
            }
        }
        if !self.ready {
            if self.kind == HciOutType::Command && self.index >= 4 {
                if self.index == self.data[3] as usize + 4 {
                    self.ready = true;
                }
            } else if self.kind == HciOutType::Acl && self.index >= 5 {
                if self.index == (self.data[3] as usize) + (self.data[4] as usize) * 256 + 5 {
                    self.ready = true;
                }
            }
        }
    }

    /// Forgets the bytes collected.
    pub fn reset(&mut self)
        ensures
            final(self).wf(),
            final(self)@ == Seq::<u8>::empty(),
            !final(self).ready(),
    {
        self.index = 0;
        self.ready = false;
        self.kind = HciOutType::Unknown;
    }

    /// The bytes collected so far.
    pub fn packet(&self) -> (bytes: Vec<u8>)
        requires
            self.wf(),
        ensures
            bytes@ == self@,
    {
        let mut bytes: Vec<u8> = Vec::new();
        let mut i: usize = 0;
        while i < self.index
            invariant
                i <= self.index,
                self.wf(),
                bytes@ == self@.take(i as int),
            decreases self.index - i,
        {
            bytes.push(self.data[i]);
            i = i + 1;
            assert(bytes@ =~= self@.take(i as int));
        }
        assert(self@.take(self.index as int) =~= self@);
        bytes
    }
}

/// A packet that is ready to go to the controller's driver.
pub struct HciOutPacket {
    /// The kind of packet, as the driver numbers them.
    pub packet_type: u8,
    /// The packet without its indicator byte.
    pub payload: Vec<u8>,
}

/// The host sends `data`. When the bytes sent since the last packet make up
/// a packet, that packet is returned for the driver, under the driver's
/// number for its kind and without its indicator byte, and collecting
/// starts anew. Until then the bytes are kept and nothing is returned.
pub fn send_hci(hci_out: &mut HciOutCollector, data: &[u8]) -> (packet: Option<HciOutPacket>)
    requires
        old(hci_out).wf(),
        old(hci_out)@.len() + data.len() <= HCI_BUFFER_SIZE,
    ensures
        final(hci_out).wf(),
        (packet is Some) == (old(hci_out).ready() || is_complete(old(hci_out)@ + data@)),
        packet is None ==> final(hci_out)@ == old(hci_out)@ + data@ && !final(hci_out).ready(),
        packet matches Some(p) ==> {
            &&& final(hci_out)@ == Seq::<u8>::empty()
            &&& !final(hci_out).ready()
            &&& old(hci_out)@.len() + data.len() > 0 ==> p.packet_type == driver_type_of(
                (old(hci_out)@ + data@)[0],
            ) && p.payload@ == (old(hci_out)@ + data@).skip(1)
            &&& old(hci_out)@.len() + data.len() == 0 ==> p.packet_type == driver_type_of(0)
                && p.payload@ == Seq::<u8>::empty()
        },
{
    hci_out.push(data);
    if hci_out.is_ready() {
        let bytes = hci_out.packet();
        let first = if bytes.len() > 0 {
            bytes[0]
        } else {
            0
        };
        let packet_type = if first == 2 {
            BtPacketType::BtAclOut.code()
        } else if first == 3 {
            BtPacketType::BtAclIn.code()
        } else if first == 4 {
            BtPacketType::BtEvt.code()
        } else {
            BtPacketType::BtCmd.code()
        };
        let mut payload: Vec<u8> = Vec::new();
        let mut i: usize = 1;
        while i < bytes.len()
            invariant
                1 <= i,
                bytes.len() > 0 ==> i <= bytes.len(),
                bytes.len() > 0 ==> payload@ == bytes@.skip(1).take(i - 1),
                bytes.len() == 0 ==> payload@ == Seq::<u8>::empty(),
            decreases bytes.len() - i,
        {
            payload.push(bytes[i]);
            i = i + 1;
            assert(payload@ =~= bytes@.skip(1).take(i - 1));
        }
        proof {
            if bytes.len() > 0 {
                assert(bytes@.skip(1).take(bytes.len() - 1) =~= bytes@.skip(1));
            }
        }
        hci_out.reset();
        Some(HciOutPacket { packet_type, payload })
    } else {
        None
    }
}

/// The indicator byte that the host sees in front of a received packet of
/// the driver's kind `packet_type`: ACL data for incoming ACL data, event
/// for everything else.
pub open spec fn indicator_of(packet_type: u8) -> u8 {
    if packet_type == 3 {
        2
    } else {
        4
    }
}

/// A received packet as the host reads it: its indicator byte, then its
/// payload.
pub open spec fn hci_frame(packet: ReceivedPacket) -> Seq<u8> {
    seq![indicator_of(packet.packet_type)] + packet.data@.subrange(1, packet.len + 1)
}

/// The received packet that the host is reading, byte by byte.
pub struct HciReader {
    data: [u8; 256],
    index: usize,
    len: usize,
}

impl HciReader {
    /// The bytes of the current packet that the host has not read yet.
    pub closed spec fn view(&self) -> Seq<u8> {
        self.data@.subrange(self.index as int, self.len as int)
    }

    /// The representation invariant: the read position lies inside the packet.
    pub closed spec fn wf(&self) -> bool {
        &&& self.len <= HCI_BUFFER_SIZE
        &&& self.index <= self.len
        &&& self.len > 0 ==> self.index < self.len
    }

    /// A reader with no packet in hand.
    pub fn new() -> (reader: HciReader)
        ensures
            reader.wf(),
            reader@ == Seq::<u8>::empty(),
    {
        HciReader { data: [0u8; 256], index: 0, len: 0 }
    }
}

/// The bytes that are next in line for the host: the rest of the packet in
/// hand, or, when that is used up, the oldest packet in the queue.
pub open spec fn hci_stream(rest: Seq<u8>, queue: Seq<ReceivedPacket>) -> Seq<u8> {
    if rest.len() > 0 {
        rest
    } else if queue.len() > 0 {
        hci_frame(queue[0])
    } else {
        Seq::empty()
    }
}

/// The host reads one byte of what it received, into `data[0]`, and gets
/// the number of bytes read: one, or zero when nothing is there to read.
/// When the packet in hand is used up, the oldest packet leaves `queue`
/// and becomes the packet in hand.
pub fn read_hci(
    reader: &mut HciReader,
    queue: &mut SimpleQueue<ReceivedPacket>,
    data: &mut Vec<u8>,
) -> (count: usize)
    requires
        old(reader).wf(),
        old(queue).wf(),
        old(data).len() > 0,
    ensures
        final(reader).wf(),
        final(queue).wf(),
        final(queue).capacity() == old(queue).capacity(),
        final(queue)@ == if old(reader)@.len() == 0 && old(queue)@.len() > 0 {
            old(queue)@.skip(1)
        } else {
            old(queue)@
        },
        count == if hci_stream(old(reader)@, old(queue)@).len() > 0 {
            1usize
        } else {
            0usize
        },
        count == 0 ==> final(data)@ == old(data)@ && final(reader)@ == old(reader)@,
        count == 1 ==> final(data)@ == old(data)@.update(
            0,
            hci_stream(old(reader)@, old(queue)@)[0],
        ) && final(reader)@ == hci_stream(old(reader)@, old(queue)@).skip(1),
{
    if reader.len == 0 {
        let dequeued = queue.dequeue();
        match dequeued {
            Some(packet) => {
                let count = packet.len as usize + 1;
                let mut i: usize = 0;
                while i < count
                    invariant
                        i <= count,
                        count == packet.len + 1,
                        reader.len == 0,
                        reader.index == old(reader).index,
                        forall|k: int| 0 <= k < i ==> reader.data@[k] == packet.data@[k],
                    decreases count - i,
                {
                    reader.data[i] = packet.data[i];
                    i = i + 1;
                }
                reader.data[0] = if packet.packet_type == 3 {
                    2
                } else {
                    4
                };
                reader.len = count;
                reader.index = 0;
                assert(reader@ =~= hci_frame(packet));
            },
            None => {},
        }
    }
    if reader.len > 0 {
        let ghost stream = reader@;
        data.set(0, reader.data[reader.index]);
        reader.index = reader.index + 1;
        if reader.index >= reader.len {
            reader.len = 0;
            reader.index = 0;
        }
        assert(reader@ =~= stream.skip(1));
        return 1;
    }
    assert(reader@ =~= old(reader)@);
    0
}

} // verus!
