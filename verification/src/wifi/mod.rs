//! The network device between the radio's driver and the packet stack:
//! the queue of received frames, the one transmit buffer and the results of
//! a scan.

use vstd::prelude::*;
use crate::compat::queue::SimpleQueue;

verus! {

/// Number of bytes of the transmit buffer.
pub const TX_BUFFER_SIZE: usize = 1650;

/// Number of bytes that the driver needs in front of a frame in the
/// transmit buffer.
pub const TX_HEADROOM: usize = 128;

/// The largest frame, in bytes, that the device carries.
pub const MAX_TRANSMISSION_UNIT: usize = 1514;

/// Number of entries of a scan's result.
pub const SCAN_SLOTS: usize = 50;

/// Bit of a notification that says that a frame was received.
pub const NOTIFY_RX: u32 = 0x2;

/// Bit of a notification that says that a transmission is done.
pub const NOTIFY_TX_DONE: u32 = 0x1;

/// Number of bytes of the buffer that holds a network's name for the
/// driver.
pub const SSID_BUFFER_SIZE: usize = 33;

/// Number of bytes of the buffer that holds a network's key for the driver.
pub const PSK_BUFFER_SIZE: usize = 64;

/// A received frame, as the driver handed it over: where it lies and how
/// long it is.
#[derive(Debug, Clone, Copy, PartialEq, Eq, Structural)]
pub struct DataFrame {
    pub len: usize,
    /// Address of the frame's first byte.
    pub data: usize,
}

/// One network that a scan has found.
#[derive(Debug, Clone, Copy)]
pub struct ScanItem {
    pub ssid: [u8; 32],
    pub channel: u8,
    pub rssi: i8,
    pub bssid: [u8; 6],
}

/// One entry of the driver's scan table.
#[derive(Debug, Clone, Copy)]
pub struct ScanRecord {
    /// Non-zero where the entry holds a network.
    pub is_used: u8,
    pub item: ScanItem,
}

/// The part of the transmit buffer that holds a frame of `len` bytes.
pub struct TxWindow {
    pub start: usize,
    pub end: usize,
}

/// Permission to take one received frame from the device.
#[derive(Debug, Default)]
pub struct WifiRxToken {}

/// Permission to send one frame through the device.
#[derive(Debug, Default)]
pub struct WifiTxToken {}

/// The device's state.
pub struct WifiDevice {
    rx: SimpleQueue<DataFrame>,
    tx_queued: bool,
    scan_in_progress: bool,
    last_scan_result: Vec<Option<ScanItem>>,
    connected: bool,
}

/// What a scan table says: for each entry the network it holds, if it
/// holds one.
pub open spec fn scan_result(table: Seq<ScanRecord>) -> Seq<Option<ScanItem>> {
    Seq::new(
        table.len(),
        |i: int|
            if table[i].is_used != 0 {
                Some(table[i].item)
            } else {
                None
            },
    )
}

/// `text` followed by zeros, `size` bytes in all.
pub open spec fn zero_padded(text: Seq<u8>, size: nat) -> Seq<u8> {
    Seq::new(
        size,
        |i: int|
            if i < text.len() {
                text[i]
            } else {
                0u8
            },
    )
}

impl WifiDevice {
    /// The representation invariant: that of the receive queue.
    pub closed spec fn wf(&self) -> bool {
        self.rx.wf()
    }

    /// The received frames that the packet stack has not taken yet, oldest
    /// first.
    pub closed spec fn received(&self) -> Seq<DataFrame> {
        self.rx@
    }

    /// The largest number of received frames that the device keeps.
    pub closed spec fn rx_capacity(&self) -> nat {
        self.rx.capacity()
    }

    /// Whether the transmit buffer holds a frame that the driver has not
    /// been told to send yet.
    pub closed spec fn tx_queued(&self) -> bool {
        self.tx_queued
    }

    /// Whether a scan has been started and has not reported yet.
    pub closed spec fn scan_in_progress(&self) -> bool {
        self.scan_in_progress
    }

    /// What the last scan reported.
    pub closed spec fn last_scan_result(&self) -> Seq<Option<ScanItem>> {
        self.last_scan_result@
    }

    /// Whether the protocol stack has reported that an address was got.
    pub closed spec fn connected(&self) -> bool {
        self.connected
    }

    /// A device that has received nothing, sends nothing and scans nothing.
    pub fn new() -> (device: WifiDevice)
        ensures
            device.wf(),
            device.received() == Seq::<DataFrame>::empty(),
            device.rx_capacity() == crate::compat::queue::QUEUE_SIZE - 1,
            !device.tx_queued(),
            !device.scan_in_progress(),
            device.last_scan_result() == Seq::<Option<ScanItem>>::empty(),
            !device.connected(),
    {
        WifiDevice {
            rx: SimpleQueue::new(),
            tx_queued: false,
            scan_in_progress: false,
            last_scan_result: Vec::new(),
            connected: false,
        }
    }

    /// Number of received frames that wait for the packet stack.
    pub fn received_len(&self) -> (len: usize)
        requires
            self.wf(),
        ensures
            len == self.received().len(),
    {
        self.rx.len()
    }

    /// Whether the transmit buffer holds a frame that still waits for the
    /// driver.
    pub fn is_tx_queued(&self) -> (queued: bool)
        ensures
            queued == self.tx_queued(),
    {
        self.tx_queued
    }

    /// Whether a scan has been started and has not reported yet.
    pub fn is_scanning(&self) -> (scanning: bool)
        ensures
            scanning == self.scan_in_progress(),
    {
        self.scan_in_progress
    }

    /// Whether the protocol stack has reported that an address was got.
    pub fn is_connected(&self) -> (connected: bool)
        ensures
            connected == self.connected(),
    {
        self.connected
    }

    /// A pair of tokens if a received frame is waiting.
    pub fn receive(&mut self) -> (tokens: Option<(WifiRxToken, WifiTxToken)>)
        requires
            old(self).wf(),
        ensures
            *final(self) == *old(self),
            (tokens is Some) == (old(self).received().len() > 0),
    {
        let available = !self.rx.is_empty();
        if available {
            Some((WifiRxToken {  }, WifiTxToken {  }))
        } else {
            None
        }
    }

    /// A token for sending; it is always to be had.
    pub fn transmit(&mut self) -> (token: Option<WifiTxToken>)
        ensures
            *final(self) == *old(self),
            token is Some,
    {
        Some(WifiTxToken {  })
    }

    /// The largest frame that the device carries:
    /// [`MAX_TRANSMISSION_UNIT`] bytes.
    pub fn max_transmission_unit(&self) -> (mtu: usize)
        ensures
            mtu == MAX_TRANSMISSION_UNIT,
    {
        MAX_TRANSMISSION_UNIT
    }

    /// The largest number of frames in one burst: one.
    pub fn max_burst_size(&self) -> (burst: Option<usize>)
        ensures
            burst == Some(1usize),
    {
        Some(1)
    }

    /// Starts a scan. Fails, and changes nothing, while an earlier scan has
    /// not reported.
    pub fn scan_begin(&mut self) -> (started: Result<(), ()>)
        requires
            old(self).wf(),
        ensures
            final(self).wf(),
            (started is Ok) == !old(self).scan_in_progress(),
            final(self).scan_in_progress(),
            final(self).received() == old(self).received(),
            final(self).rx_capacity() == old(self).rx_capacity(),
            final(self).tx_queued() == old(self).tx_queued(),
            final(self).last_scan_result() == old(self).last_scan_result(),
            final(self).connected() == old(self).connected(),
    {
        if self.scan_in_progress {
            return Err(());
        }
        self.scan_in_progress = true;
        Ok(())
    }

    /// What the last scan reported, once no scan is in progress.
    pub fn scan_result(&self) -> (result: Option<Vec<Option<ScanItem>>>)
        ensures
            (result is Some) == !self.scan_in_progress(),
            result matches Some(items) ==> items@ == self.last_scan_result(),
    {
        if self.scan_in_progress {
            None
        } else {
            let mut items: Vec<Option<ScanItem>> = Vec::new();
            let mut i: usize = 0;
            while i < self.last_scan_result.len()
                invariant
                    i <= self.last_scan_result.len(),
                    items@ == self.last_scan_result@.take(i as int),
                decreases self.last_scan_result.len() - i,
            {
                items.push(self.last_scan_result[i]);
                i = i + 1;
                assert(items@ =~= self.last_scan_result@.take(i as int));
            }
            assert(self.last_scan_result@.take(self.last_scan_result.len() as int)
                =~= self.last_scan_result@);
            Some(items)
        }
    }
}

/// Whether the transmit buffer holds a frame that still waits for the
/// driver. If so, the frame is taken as handed over from now on, and the
/// caller has to tell the driver to send it.
pub fn trigger_transmit_if_needed(device: &mut WifiDevice) -> (trigger: bool)
    requires
        old(device).wf(),
    ensures
        final(device).wf(),
        trigger == old(device).tx_queued(),
        !final(device).tx_queued(),
        final(device).received() == old(device).received(),
        final(device).rx_capacity() == old(device).rx_capacity(),
        final(device).scan_in_progress() == old(device).scan_in_progress(),
        final(device).last_scan_result() == old(device).last_scan_result(),
        final(device).connected() == old(device).connected(),
{
    if device.tx_queued {
        device.tx_queued = false;
        true
    } else {
        false
    }
}

/// The protocol stack's event. The event with the code `got_ip`, the one
/// that reports that an address was got, makes the device connected; any
/// other event changes nothing.
pub fn bl602_net_event(device: &mut WifiDevice, evt: u32, val: u32, got_ip: u32)
    requires
        old(device).wf(),
    ensures
        final(device).wf(),
        final(device).connected() == (old(device).connected() || evt == got_ip),
        final(device).tx_queued() == old(device).tx_queued(),
        final(device).received() == old(device).received(),
        final(device).rx_capacity() == old(device).rx_capacity(),
        final(device).scan_in_progress() == old(device).scan_in_progress(),
        final(device).last_scan_result() == old(device).last_scan_result(),
{
    if evt == got_ip {
        device.connected = true;
    }
}

/// The driver's notification. A notification of a received frame puts the
/// frame, of `len` bytes at address `data`, at the end of the receive
/// queue; where the queue is full the frame is dropped. Any other
/// notification changes nothing. Returns zero.
pub fn bl602_net_notify(device: &mut WifiDevice, event: u32, data: usize, len: usize) -> (status:
    i32)
    requires
        old(device).wf(),
    ensures
        status == 0,
        final(device).wf(),
        final(device).rx_capacity() == old(device).rx_capacity(),
        final(device).tx_queued() == old(device).tx_queued(),
        final(device).scan_in_progress() == old(device).scan_in_progress(),
        final(device).last_scan_result() == old(device).last_scan_result(),
        final(device).connected() == old(device).connected(),
        final(device).received() == if (event & NOTIFY_RX) != 0 && old(device).received().len()
            < old(device).rx_capacity() {
            old(device).received().push(DataFrame { len, data })
        } else {
            old(device).received()
        },
{
    let is_rx = (event & NOTIFY_RX) != 0;
    if is_rx {
        if !device.rx.is_full() {
            device.rx.enqueue(DataFrame { len, data });
        }
    }
    0
}

/// The scan's callback: files what the driver's scan `table` says as the
/// scan's result and ends the scan.
pub fn scan_cb(device: &mut WifiDevice, table: &[ScanRecord])
    requires
        old(device).wf(),
    ensures
        final(device).wf(),
        !final(device).scan_in_progress(),
        final(device).last_scan_result() == scan_result(table@),
        final(device).connected() == old(device).connected(),
        final(device).received() == old(device).received(),
        final(device).rx_capacity() == old(device).rx_capacity(),
        final(device).tx_queued() == old(device).tx_queued(),
{
    let mut result: Vec<Option<ScanItem>> = Vec::new();
    let mut i: usize = 0;
    while i < table.len()
        invariant
            i <= table.len(),
            result@ == scan_result(table@).take(i as int),
        decreases table.len() - i,
    {
        let record = table[i];
        if record.is_used != 0 {
            result.push(Some(record.item));
        } else {
            result.push(None);
        }
        i = i + 1;
        assert(result@ =~= scan_result(table@).take(i as int));
    }
    assert(scan_result(table@).take(table.len() as int) =~= scan_result(table@));
    device.last_scan_result = result;
    device.scan_in_progress = false;
}

impl WifiRxToken {
    /// Takes the oldest received frame from the device. Without a frame
    /// the device is exhausted and nothing is returned.
    pub fn consume(self, device: &mut WifiDevice) -> (frame: Option<DataFrame>)
        requires
            old(device).wf(),
        ensures
            final(device).wf(),
            final(device).rx_capacity() == old(device).rx_capacity(),
            final(device).tx_queued() == old(device).tx_queued(),
            final(device).scan_in_progress() == old(device).scan_in_progress(),
            final(device).last_scan_result() == old(device).last_scan_result(),
            final(device).connected() == old(device).connected(),
            old(device).received().len() == 0 ==> frame is None && final(device).received()
                == old(device).received(),
            old(device).received().len() > 0 ==> frame == Some(old(device).received()[0])
                && final(device).received() == old(device).received().skip(1),
    {
        device.rx.dequeue()
    }
}

impl WifiTxToken {
    /// Where in the transmit buffer a frame of `len` bytes is built: right
    /// behind the headroom. A frame that does not fit is fatal, so callers
    /// rule it out.
    pub fn window(&self, len: usize) -> (window: TxWindow)
        requires
            len <= TX_BUFFER_SIZE - TX_HEADROOM,
        ensures
            window.start == TX_HEADROOM,
            window.end == TX_HEADROOM + len,
    {
        TxWindow { start: TX_HEADROOM, end: TX_HEADROOM + len }
    }

    /// Ends the sending of a frame. `built` says whether the frame was
    /// built in the transmit buffer. If it was, the frame now waits for the
    /// driver, and the result says that the driver is to get it; a frame
    /// that still waits from before is fatal, so callers rule it out. If it
    /// was not, nothing changes.
    pub fn consume(self, device: &mut WifiDevice, built: bool) -> (output: bool)
        requires
            old(device).wf(),
            built ==> !old(device).tx_queued(),
        ensures
            final(device).wf(),
            output == built,
            final(device).tx_queued() == (built || old(device).tx_queued()),
            final(device).received() == old(device).received(),
            final(device).rx_capacity() == old(device).rx_capacity(),
            final(device).scan_in_progress() == old(device).scan_in_progress(),
            final(device).last_scan_result() == old(device).last_scan_result(),
            final(device).connected() == old(device).connected(),
    {
        if built {
            device.tx_queued = true;
        }
        built
    }
}

/// The buffer that names a network for the driver: the name's bytes, then
/// zeros. A name longer than the buffer is fatal, so callers rule it out.
pub fn ssid_buffer(ssid: &[u8]) -> (buffer: [u8; 33])
    requires
        ssid.len() <= SSID_BUFFER_SIZE,
    ensures
        buffer@ == zero_padded(ssid@, SSID_BUFFER_SIZE as nat),
{
    let mut buffer = [0u8; 33];
    let mut i: usize = 0;
    while i < ssid.len()
        invariant
            i <= ssid.len(),
            ssid.len() <= SSID_BUFFER_SIZE,
            buffer@ == zero_padded(ssid@.take(i as int), SSID_BUFFER_SIZE as nat),
        decreases ssid.len() - i,
    {
        buffer[i] = ssid[i];
        i = i + 1;
        assert(buffer@ =~= zero_padded(ssid@.take(i as int), SSID_BUFFER_SIZE as nat));
    }
    assert(ssid@.take(ssid.len() as int) =~= ssid@);
    buffer
}

/// The buffer that holds a network's key for the driver: the key's bytes,
/// then zeros. A key longer than the buffer is fatal, so callers rule it
/// out.
pub fn psk_buffer(psk: &[u8]) -> (buffer: [u8; 64])
    requires
        psk.len() <= PSK_BUFFER_SIZE,
    ensures
        buffer@ == zero_padded(psk@, PSK_BUFFER_SIZE as nat),
{
    let mut buffer = [0u8; 64];
    let mut i: usize = 0;
    while i < psk.len()
        invariant
            i <= psk.len(),
            psk.len() <= PSK_BUFFER_SIZE,
            buffer@ == zero_padded(psk@.take(i as int), PSK_BUFFER_SIZE as nat),
        decreases psk.len() - i,
    {
        buffer[i] = psk[i];
        i = i + 1;
        assert(buffer@ =~= zero_padded(psk@.take(i as int), PSK_BUFFER_SIZE as nat));
    }
    assert(psk@.take(psk.len() as int) =~= psk@);
    buffer
}

} // verus!
