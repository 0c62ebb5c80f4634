use vstd::prelude::*;

use crate::error::HidppError;
use crate::features::SW_ID;
use crate::report::{LONG_REPORT_ID, LONG_REPORT_LEN};

verus! {

/// Sending and receiving HID++ reports. Implemented by the HID device
/// transport and by test doubles, so that feature access runs without a
/// physical device.
pub trait HidTransport: Send {
    fn write(&self, data: &[u8]) -> Result<usize, HidppError>;

    /// Reads one report into `buf` and returns how many bytes it holds.
    /// Implementations return at most the buffer's length; this is taken on
    /// trust of every implementation (feature access slices the buffer by it).
    fn read_timeout(&self, buf: &mut [u8], timeout_ms: i32) -> (r: Result<usize, HidppError>)
        ensures
            final(buf)@.len() == old(buf)@.len(),
            r matches Ok(n) ==> n <= old(buf)@.len(),
    ;
}

/// One call that feature access made on its transport.
pub enum TransportEvent {
    /// A frame handed to `write`, with what `write` returned.
    Write(Seq<u8>, Result<usize, HidppError>),
    /// The timeout and the buffer length handed to `read_timeout`, with what
    /// it gave: the bytes it read, or its error.
    Read(i32, usize, Result<Seq<u8>, HidppError>),
}

/// The event of a read with `timeout_ms` into a buffer of `len` bytes that
/// returned `r` and left the buffer holding `buf`.
pub open spec fn read_event(timeout_ms: i32, len: usize, r: Result<usize, HidppError>, buf: Seq<u8>) -> TransportEvent {
    match r {
        Ok(n) => TransportEvent::Read(timeout_ms, len, Ok(buf.take(n as int))),
        Err(e) => TransportEvent::Read(timeout_ms, len, Err(e)),
    }
}

/// A frame for the device: a 20-byte long report addressed to it, with our
/// software ID in the low nibble of byte 3.
pub open spec fn device_frame(device: u8, w: Seq<u8>) -> bool {
    &&& w.len() == LONG_REPORT_LEN
    &&& w[0] == LONG_REPORT_ID
    &&& w[1] == device
    &&& w[3] & 0x0Fu8 == SW_ID
}

/// A write event hands the transport a frame for the device.
pub open spec fn writes_device_frame(device: u8, e: TransportEvent) -> bool {
    e matches TransportEvent::Write(w, _) ==> device_frame(device, w)
}

/// HID++ 2.0 feature access over a transport, with the record of every call
/// made on the transport through it. The transport and the record are
/// private to this module: code elsewhere reaches the transport only through
/// `send` and `receive`, which make the call and record it, and reads it
/// through `transport`, which lends it out unchangeable.
pub struct FeatureAccess<T: HidTransport> {
    transport: T,
    pub device_index: u8,
    history: Ghost<Seq<TransportEvent>>,
}

/// The events that took `before` to `after`.
pub open spec fn added<T: HidTransport>(before: FeatureAccess<T>, after: FeatureAccess<T>) -> Seq<
    TransportEvent,
> {
    after.history().skip(before.history().len() as int)
}

/// `after` is `before` with more calls recorded, for the same device, and
/// every frame written in between is a frame for the device.
pub open spec fn grew<T: HidTransport>(before: FeatureAccess<T>, after: FeatureAccess<T>) -> bool {
    &&& after.device() == before.device()
    &&& before.history().len() <= after.history().len()
    &&& after.history().take(before.history().len() as int) == before.history()
    &&& forall|j: int|
        0 <= j < added(before, after).len() ==> writes_device_frame(before.device(), #[trigger] added(before, after)[j])
}

/// Growth is transitive, and the events of two steps are those of each in turn.
pub proof fn lemma_grew_chain<T: HidTransport>(
    a: FeatureAccess<T>,
    b: FeatureAccess<T>,
    c: FeatureAccess<T>,
)
    requires
        grew(a, b),
        grew(b, c),
    ensures
        grew(a, c),
        added(a, c) == added(a, b) + added(b, c),
{
    let ha = a.history();
    let hb = b.history();
    let hc = c.history();
    assert(hb =~= ha + hb.skip(ha.len() as int));
    assert(hc =~= hb + hc.skip(hb.len() as int));
    assert(hc.take(ha.len() as int) =~= ha);
    assert(added(a, c) =~= added(a, b) + added(b, c));
    let ab = added(a, b);
    let bc = added(b, c);
    assert forall|j: int| 0 <= j < added(a, c).len() implies writes_device_frame(a.device(), #[trigger] added(a, c)[j]) by {
        if j < ab.len() {
            assert(added(a, c)[j] == ab[j]);
        } else {
            assert(added(a, c)[j] == bc[j - ab.len()]);
        }
    }
}

/// The events of two steps, split back at the first step's end.
pub proof fn lemma_grew_split<T: HidTransport>(
    a: FeatureAccess<T>,
    b: FeatureAccess<T>,
    c: FeatureAccess<T>,
)
    requires
        grew(a, b),
        grew(b, c),
    ensures
        grew(a, c),
        added(a, c) == added(a, b) + added(b, c),
        added(a, c).take(added(a, b).len() as int) == added(a, b),
        added(a, c).skip(added(a, b).len() as int) == added(b, c),
{
    lemma_grew_chain(a, b, c);
    assert((added(a, b) + added(b, c)).take(added(a, b).len() as int) =~= added(a, b));
    assert((added(a, b) + added(b, c)).skip(added(a, b).len() as int) =~= added(b, c));
}

/// Frame law: between two states of feature access, every frame handed to the
/// transport is a 20-byte long report for the device with our software ID.
pub proof fn lemma_written_frames<T: HidTransport>(before: FeatureAccess<T>, after: FeatureAccess<T>)
    requires
        grew(before, after),
    ensures
        forall|j: int|
            0 <= j < added(before, after).len() ==> (#[trigger] added(before, after)[j] matches TransportEvent::Write(w, _)
                ==> device_frame(before.device(), w)),
{
    assert forall|j: int| 0 <= j < added(before, after).len() implies (#[trigger] added(before, after)[j] matches TransportEvent::Write(w, _)
        ==> device_frame(before.device(), w)) by {
        assert(writes_device_frame(before.device(), added(before, after)[j]));
    }
}

/// Nothing recorded: no growth adds no events.
pub proof fn lemma_grew_refl<T: HidTransport>(a: FeatureAccess<T>)
    ensures
        grew(a, a),
        added(a, a) == Seq::<TransportEvent>::empty(),
{
    assert(a.history().take(a.history().len() as int) =~= a.history());
    assert(added(a, a) =~= Seq::<TransportEvent>::empty());
}

impl<T: HidTransport> FeatureAccess<T> {
    pub fn new(transport: T, device_index: u8) -> (r: Self)
        ensures
            r.device() == device_index,
            r.history() == Seq::<TransportEvent>::empty(),
    {
        FeatureAccess { transport, device_index, history: Ghost(Seq::empty()) }
    }

    /// The device index that requests address.
    pub closed spec fn device(&self) -> u8 {
        self.device_index
    }

    /// The device index that requests address.
    pub fn device_index(&self) -> (d: u8)
        ensures
            d == self.device(),
    {
        self.device_index
    }

    /// Every call made on the transport through this value, in order.
    pub closed spec fn history(&self) -> Seq<TransportEvent> {
        self.history@
    }

    /// The transport, lent out unchangeable.
    pub fn transport(&self) -> &T {
        &self.transport
    }

    /// Hands a frame for the device to the transport's `write`, and records it.
    pub fn send(&mut self, frame: &[u8]) -> (r: Result<usize, HidppError>)
        requires
            device_frame(old(self).device(), frame@),
        ensures
            grew(*old(self), *final(self)),
            added(*old(self), *final(self)) == seq![TransportEvent::Write(frame@, r)],
    {
        let r = self.transport.write(frame);
        let ghost before = self.history@;
        self.history = Ghost(self.history@.push(TransportEvent::Write(frame@, r)));
        assert(self.history@.take(before.len() as int) =~= before);
        assert(self.history@.skip(before.len() as int) =~= seq![TransportEvent::Write(frame@, r)]);
        r
    }

    /// Reads one report through the transport's `read_timeout`, and records it.
    pub fn receive(&mut self, buf: &mut [u8], timeout_ms: i32) -> (r: Result<usize, HidppError>)
        ensures
            final(buf)@.len() == old(buf)@.len(),
            r matches Ok(n) ==> n <= old(buf)@.len(),
            grew(*old(self), *final(self)),
            added(*old(self), *final(self)) == seq![read_event(timeout_ms, old(buf)@.len() as usize, r, final(buf)@)],
    {
        let ghost len = buf@.len() as usize;
        let r = self.transport.read_timeout(buf, timeout_ms);
        let ghost before = self.history@;
        self.history = Ghost(self.history@.push(read_event(timeout_ms, len, r, buf@)));
        assert(self.history@.take(before.len() as int) =~= before);
        assert(self.history@.skip(before.len() as int) =~= seq![read_event(timeout_ms, len, r, buf@)]);
        r
    }
}

} // verus!
