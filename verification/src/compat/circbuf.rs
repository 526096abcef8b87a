//! Byte-oriented circular buffer for framed byte streams.
//!
//! A buffer over `size` bytes of storage holds at most `size - 1` bytes, so
//! that equal cursors always mean "empty". A write that does not fit as a
//! whole is refused and leaves the buffer as it was: nothing is ever
//! overwritten.

use vstd::prelude::*;
use crate::compat::queue::{ring_distance, ring_index, SimpleQueue};

verus! {

/// A circular buffer with a write cursor (`head`) and a read cursor (`tail`).
#[derive(Debug)]
pub struct CircBuf {
    base: Vec<u8>,
    size: usize,
    head: usize,
    tail: usize,
    external: bool,
}

/// Whether `bytes` more bytes fit beside the `used` bytes that a buffer of
/// the given capacity already holds.
pub open spec fn write_fits(used: nat, capacity: nat, bytes: nat) -> bool {
    used + bytes <= capacity
}

/// The pending bytes after a write of `data`: appended if they fit, else
/// unchanged.
pub open spec fn after_write(pending: Seq<u8>, capacity: nat, data: Seq<u8>) -> Seq<u8> {
    if write_fits(pending.len(), capacity, data.len()) {
        pending + data
    } else {
        pending
    }
}

/// The buffer space after `data` was written into it from position `head`
/// on, going round the end of the space: position `p` holds the byte of
/// `data` that is as far into `data` as `p` is behind `head`, and keeps its
/// byte where `data` does not reach.
pub open spec fn written_space(space: Seq<u8>, head: int, data: Seq<u8>) -> Seq<u8> {
    Seq::new(
        space.len(),
        |p: int|
            if ring_distance(head, p, space.len() as int) < data.len() {
                data[ring_distance(head, p, space.len() as int)]
            } else {
                space[p]
            },
    )
}

/// How many bytes a read of at most `bytes` bytes delivers.
pub open spec fn read_count(pending: Seq<u8>, bytes: nat) -> nat {
    if pending.len() <= bytes {
        pending.len()
    } else {
        bytes
    }
}

impl CircBuf {
    /// The buffer space, byte by byte.
    pub closed spec fn space(&self) -> Seq<u8> {
        self.base@
    }

    /// The write cursor: where in the space the next byte written goes.
    pub closed spec fn head(&self) -> int {
        self.head as int
    }

    /// The read cursor: where in the space the oldest unread byte lies.
    pub closed spec fn tail(&self) -> int {
        self.tail as int
    }

    /// Size of the buffer space in bytes.
    pub closed spec fn size(&self) -> nat {
        self.size as nat
    }

    /// The representation invariant: both cursors lie inside the space.
    pub open spec fn wf(&self) -> bool {
        &&& self.space().len() == self.size()
        &&& self.size() == 0 ==> self.head() == 0 && self.tail() == 0
        &&& self.size() > 0 ==> 0 <= self.head() < self.size() && 0 <= self.tail() < self.size()
    }

    /// The bytes written and still unread, oldest first: those from the
    /// read cursor up to the write cursor, going round the end of the space.
    pub open spec fn view(&self) -> Seq<u8> {
        Seq::new(
            ring_distance(self.tail(), self.head(), self.size() as int) as nat,
            |k: int| self.space()[ring_index(self.tail(), k, self.size() as int)],
        )
    }

    /// The largest number of bytes the buffer can hold at once.
    pub open spec fn capacity(&self) -> nat {
        if self.size() == 0 {
            0
        } else {
            (self.size() - 1) as nat
        }
    }

    /// Whether the buffer space was handed in by the caller.
    pub closed spec fn is_external(&self) -> bool {
        self.external
    }

    /// A buffer without buffer space. It holds nothing until
    /// [`circbuf_init`] gives it space.
    pub fn new() -> (circ: Self)
        ensures
            circ.wf(),
            circ.size() == 0,
            circ.space() == Seq::<u8>::empty(),
            circ.head() == 0,
            circ.tail() == 0,
            circ@ == Seq::<u8>::empty(),
            !circ.is_external(),
    {
        CircBuf { base: Vec::new(), size: 0, head: 0, tail: 0, external: false }
    }

    /// The write cursor.
    pub fn head_index(&self) -> (head: usize)
        ensures
            head == self.head(),
    {
        self.head
    }

    /// The read cursor.
    pub fn tail_index(&self) -> (tail: usize)
        ensures
            tail == self.tail(),
    {
        self.tail
    }

    /// The buffer space, byte by byte.
    pub fn as_slice(&self) -> (space: &[u8])
        ensures
            space@ == self.space(),
    {
        self.base.as_slice()
    }
}

/// Initializes `circ` as an empty buffer over `bytes` bytes of space, with
/// both cursors at the start of the space.
///
/// With `base` the caller hands in the space, for storage that has to be
/// set up in a special way; without it the buffer allocates its own, filled
/// with zeros. Returns zero.
pub fn circbuf_init(circ: &mut CircBuf, base: Option<Vec<u8>>, bytes: usize) -> (status: i32)
    requires
        base matches Some(space) ==> space.len() == bytes,
    ensures
        status == 0,
        final(circ).wf(),
        final(circ).size() == bytes,
        final(circ).head() == 0,
        final(circ).tail() == 0,
        final(circ).space() == match base {
            Some(space) => space@,
            None => Seq::new(bytes as nat, |i: int| 0u8),
        },
        final(circ)@ == Seq::<u8>::empty(),
        final(circ).is_external() == (base is Some),
{
    match base {
        Some(space) => {
            circ.base = space;
            circ.external = true;
        },
        None => {
            let mut space: Vec<u8> = Vec::new();
            let mut i: usize = 0;
            while i < bytes
                invariant
                    i <= bytes,
                    space.len() == i,
                    forall|k: int| 0 <= k < i ==> space[k] == 0,
                decreases bytes - i,
            {
                space.push(0u8);
                i = i + 1;
            }
            assert(space@ =~= Seq::new(bytes as nat, |i: int| 0u8));
            circ.base = space;
            circ.external = false;
        },
    }
    circ.size = bytes;
    circ.head = 0;
    circ.tail = 0;
    0
}

/// Takes the buffer space away from `circ`, which is then a buffer without
/// space. Space that the caller handed in goes back to the caller.
pub fn circbuf_uninit(circ: &mut CircBuf) -> (space: Option<Vec<u8>>)
    requires
        old(circ).wf(),
    ensures
        final(circ).wf(),
        final(circ).size() == 0,
        final(circ).space() == Seq::<u8>::empty(),
        final(circ).head() == 0,
        final(circ).tail() == 0,
        final(circ)@ == Seq::<u8>::empty(),
        !final(circ).is_external(),
        (space is Some) == old(circ).is_external(),
        space matches Some(v) ==> v@ == old(circ).space(),
{
    let mut space: Vec<u8> = Vec::new();
    std::mem::swap(&mut space, &mut circ.base);
    let external = circ.external;
    circ.size = 0;
    circ.head = 0;
    circ.tail = 0;
    circ.external = false;
    if external {
        Some(space)
    } else {
        None
    }
}

/// Number of bytes written and still unread.
pub fn circbuf_used(circ: &CircBuf) -> (used: usize)
    requires
        circ.wf(),
    ensures
        used == circ@.len(),
        used == ring_distance(circ.tail(), circ.head(), circ.size() as int),
        used <= circ.capacity(),
{
    if circ.head >= circ.tail {
        circ.head - circ.tail
    } else {
        circ.head + (circ.size - circ.tail)
    }
}

/// Moves up to `bytes` bytes, oldest first, from the buffer to the front of
/// `dst`, and returns how many were moved: all that are pending if those are
/// fewer than `bytes`. The read cursor advances by that many places, going
/// round the end of the space; the write cursor and the space stay as they
/// were.
pub fn circbuf_read(circ: &mut CircBuf, dst: &mut Vec<u8>, bytes: usize) -> (count: usize)
    requires
        old(circ).wf(),
        bytes <= old(dst).len(),
    ensures
        final(circ).wf(),
        final(circ).size() == old(circ).size(),
        final(circ).is_external() == old(circ).is_external(),
        final(circ).space() == old(circ).space(),
        final(circ).head() == old(circ).head(),
        final(circ).tail() == ring_index(old(circ).tail(), count as int, old(circ).size() as int),
        count == read_count(old(circ)@, bytes as nat),
        final(circ)@ == old(circ)@.skip(count as int),
        final(dst)@ == old(circ)@.take(count as int) + old(dst)@.skip(count as int),
{
    let used = circbuf_used(circ);
    let count = if used <= bytes {
        used
    } else {
        bytes
    };
    let ghost pending = circ@;
    let ghost room = dst@;
    let mut t = circ.tail;
    let mut i: usize = 0;
    while i < count
        invariant
            circ.wf(),
            *circ == *old(circ),
            pending == circ@,
            count <= pending.len(),
            count <= room.len(),
            i <= count,
            circ.size > 0 ==> t < circ.size,
            t == ring_index(circ.tail as int, i as int, circ.size as int),
            dst@ == pending.take(i as int) + room.skip(i as int),
        decreases count - i,
    {
        let b = circ.base[t];
        assert(b == pending[i as int]);
        dst.set(i, b);
        t = t + 1;
        if t == circ.size {
            t = 0;
        }
        i = i + 1;
        assert(dst@ =~= pending.take(i as int) + room.skip(i as int));
    }
    circ.tail = t;
    proof {
        assert(circ@ =~= pending.skip(count as int));
    }
    count
}

/// Appends the first `bytes` bytes of `src` to the buffer and returns
/// `bytes`, if they fit as a whole: they go into the space from the write
/// cursor on, and the write cursor advances by `bytes` places, both going
/// round the end of the space. If they do not fit, the buffer stays as it
/// was and the result is zero. The read cursor stays where it was.
pub fn circbuf_write(circ: &mut CircBuf, src: &[u8], bytes: usize) -> (count: usize)
    requires
        old(circ).wf(),
        bytes <= src.len(),
    ensures
        final(circ).wf(),
        final(circ).size() == old(circ).size(),
        final(circ).is_external() == old(circ).is_external(),
        final(circ).tail() == old(circ).tail(),
        final(circ).head() == ring_index(old(circ).head(), count as int, old(circ).size() as int),
        final(circ).space() == written_space(
            old(circ).space(),
            old(circ).head(),
            src@.take(count as int),
        ),
        final(circ)@ == after_write(old(circ)@, old(circ).capacity(), src@.take(bytes as int)),
        count == if write_fits(old(circ)@.len(), old(circ).capacity(), bytes as nat) {
            bytes
        } else {
            0
        },
{
    let used = circbuf_used(circ);
    if circ.size == 0 || bytes > circ.size - 1 - used {
        assert(src@.take(0) =~= Seq::<u8>::empty());
        assert(circ@ + Seq::<u8>::empty() =~= circ@);
        assert(circ.space() =~= written_space(circ.space(), circ.head(), src@.take(0)));
        return 0;
    }
    let ghost pending = circ@;
    let ghost start = *circ;
    let mut t = circ.head;
    let mut i: usize = 0;
    while i < bytes
        invariant
            circ.wf(),
            circ.size == start.size,
            circ.tail == start.tail,
            circ.head == start.head,
            circ.external == start.external,
            start.wf(),
            pending == start@,
            circ.size > 0,
            pending.len() + bytes <= circ.size - 1,
            bytes <= src.len(),
            i <= bytes,
            t < circ.size,
            t == ring_index(circ.head as int, i as int, circ.size as int),
            circ.base@ == written_space(start.base@, start.head as int, src@.take(i as int)),
            forall|k: int|
                0 <= k < pending.len() ==> circ.base[ring_index(
                    circ.tail as int,
                    k,
                    circ.size as int,
                )] == #[trigger] pending[k],
            forall|k: int|
                0 <= k < i ==> circ.base[ring_index(circ.head as int, k, circ.size as int)]
                    == #[trigger] src[k],
        decreases bytes - i,
    {
        let ghost prior = circ.base@;
        circ.base.set(t, src[i]);
        proof {
            assert(circ.base@ =~= written_space(
                start.base@,
                start.head as int,
                src@.take(i + 1),
            ));
            assert forall|k: int| 0 <= k < pending.len() implies circ.base[ring_index(
                circ.tail as int,
                k,
                circ.size as int,
            )] == #[trigger] pending[k] by {
                assert(prior[ring_index(circ.tail as int, k, circ.size as int)] == pending[k]);
            }
            assert forall|k: int| 0 <= k < i + 1 implies circ.base[ring_index(
                circ.head as int,
                k,
                circ.size as int,
            )] == #[trigger] src[k] by {
                if k < i {
                    assert(prior[ring_index(circ.head as int, k, circ.size as int)] == src[k]);
                }
            }
        }
        t = t + 1;
        if t == circ.size {
            t = 0;
        }
        i = i + 1;
    }
    circ.head = t;
    proof {
        let data = src@.take(bytes as int);
        assert forall|k: int| 0 <= k < pending.len() + bytes implies circ@[k] == (pending
            + data)[k] by {
            if k < pending.len() {
                assert(pending[k] == circ.base[ring_index(
                    circ.tail as int,
                    k,
                    circ.size as int,
                )]);
            } else {
                assert(src[k - pending.len()] == circ.base[ring_index(
                    start.head as int,
                    k - pending.len(),
                    circ.size as int,
                )]);
            }
        }
        assert(circ@ =~= pending + data);
    }
    bytes
}

/// Round trip: on a buffer that holds `pending`, at whatever position its
/// cursors stand, a write of `data` that fits followed by a read of all
/// that is then pending delivers `pending` followed by `data`, byte for
/// byte and in order, and leaves the buffer empty. On an empty buffer a
/// read of as many bytes as were written delivers exactly those bytes.
pub proof fn lemma_write_then_read(pending: Seq<u8>, capacity: nat, data: Seq<u8>)
    requires
        write_fits(pending.len(), capacity, data.len()),
    ensures
        ({
            let written = after_write(pending, capacity, data);
            let count = read_count(written, written.len());
            &&& written.take(count as int) == pending + data
            &&& written.skip(count as int) == Seq::<u8>::empty()
            &&& pending.len() == 0 ==> {
                &&& read_count(written, data.len()) == data.len()
                &&& written.take(data.len() as int) == data
                &&& written.skip(data.len() as int) == Seq::<u8>::empty()
            }
        }),
{
    let written = after_write(pending, capacity, data);
    assert(written.take(written.len() as int) =~= pending + data);
    assert(written.skip(written.len() as int) =~= Seq::<u8>::empty());
    if pending.len() == 0 {
        assert(written =~= data);
    }
}

/// Number of bytes of a received packet's data area.
pub const PACKET_DATA_SIZE: usize = 256;

/// The kinds of packet that travel between host and controller.
#[derive(Debug, Clone, Copy, PartialEq, Eq, Structural)]
pub enum BtPacketType {
    /// HCI command.
    BtCmd,
    /// HCI event.
    BtEvt,
    /// Outgoing ACL data.
    BtAclOut,
    /// Incoming ACL data.
    BtAclIn,
    /// Outgoing ISO data.
    BtIsoOut,
    /// Incoming ISO data.
    BtIsoIn,
    /// Only used for waking up kernel threads.
    BtDummy,
}

impl BtPacketType {
    /// The number by which the driver knows this kind of packet.
    pub open spec fn spec_code(self) -> u8 {
        match self {
            BtPacketType::BtCmd => 0,
            BtPacketType::BtEvt => 1,
            BtPacketType::BtAclOut => 2,
            BtPacketType::BtAclIn => 3,
            BtPacketType::BtIsoOut => 4,
            BtPacketType::BtIsoIn => 5,
            BtPacketType::BtDummy => 99,
        }
    }

    /// The number by which the driver knows this kind of packet.
    #[verifier::when_used_as_spec(spec_code)]
    pub fn code(self) -> (code: u8)
        ensures
            code == self.spec_code(),
    {
        match self {
            BtPacketType::BtCmd => 0,
            BtPacketType::BtEvt => 1,
            BtPacketType::BtAclOut => 2,
            BtPacketType::BtAclIn => 3,
            BtPacketType::BtIsoOut => 4,
            BtPacketType::BtIsoIn => 5,
            BtPacketType::BtDummy => 99,
        }
    }
}

/// A packet as the controller's driver delivered it.
pub struct ReceivedPacket {
    pub packet_type: u8,
    /// Number of payload bytes.
    pub len: u8,
    /// The payload, from index one on. Index zero is left for the packet
    /// indicator that the host side puts in front.
    pub data: [u8; 256],
}

/// The data area of a received packet with the given payload: one byte of
/// room, the payload, then zeros.
pub open spec fn packet_data(payload: Seq<u8>) -> Seq<u8> {
    Seq::new(
        PACKET_DATA_SIZE as nat,
        |i: int|
            if 1 <= i <= payload.len() {
                payload[i - 1]
            } else {
                0u8
            },
    )
}

/// The driver's receive hook: files the first `len` bytes of `dst` as a
/// packet of kind `buf_type` at the end of `queue`. A payload of more than
/// 255 bytes and a full queue are fatal, so callers rule them out.
pub fn bt_receive(queue: &mut SimpleQueue<ReceivedPacket>, buf_type: u8, dst: &[u8], len: usize)
    requires
        old(queue).wf(),
        old(queue)@.len() < old(queue).capacity(),
        len <= dst.len(),
        len < PACKET_DATA_SIZE,
    ensures
        final(queue).wf(),
        final(queue).capacity() == old(queue).capacity(),
        final(queue)@.len() == old(queue)@.len() + 1,
        final(queue)@.drop_last() == old(queue)@,
        final(queue)@.last().packet_type == buf_type,
        final(queue)@.last().len == len,
        final(queue)@.last().data@ == packet_data(dst@.take(len as int)),
{
    let mut data = [0u8; 256];
    let mut i: usize = 0;
    while i < len
        invariant
            i <= len,
            len <= dst.len(),
            len < PACKET_DATA_SIZE,
            data@ == packet_data(dst@.take(i as int)),
        decreases len - i,
    {
        data[i + 1] = dst[i];
        i = i + 1;
        assert(data@ =~= packet_data(dst@.take(i as int)));
    }
    let packet = ReceivedPacket { packet_type: buf_type, len: len as u8, data };
    queue.enqueue(packet);
    assert(queue@.drop_last() =~= old(queue)@);
}

} // verus!
