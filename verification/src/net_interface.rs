//! The packet buffers that the node shares with its network device: a pool
//! of free buffers and, for each direction, one slot per descriptor of the
//! hardware queue, indexed by the token that the device hands out.

use vstd::prelude::*;

verus! {

/// Pages in a buffer that receives or sends one packet.
pub const RX_BUFFER_PAGES: usize = 1;

/// Descriptors in each hardware queue.
pub const QUEUE_SIZE: usize = 256;

/// Length of the device's header in front of each packet.
pub const VIRTIO_HEADER_LEN: usize = 10;

/// Bytes in a page.
pub const PAGE_SIZE: usize = 4096;

/// A physically contiguous, page-aligned region of memory that the device
/// can read and write. It is not copyable: a buffer is in one place at a
/// time.
#[derive(Debug)]
pub struct DmaBuffer {
    phys: usize,
    pages: usize,
    len: usize,
}

impl DmaBuffer {
    /// The physical address of the first byte.
    pub closed spec fn spec_phys(&self) -> usize {
        self.phys
    }

    /// The number of pages.
    pub closed spec fn spec_pages(&self) -> usize {
        self.pages
    }

    /// The number of bytes.
    pub closed spec fn spec_len(&self) -> usize {
        self.len
    }

    /// The region starts at a page, its length is that of its pages, and
    /// it ends within the address space.
    pub open spec fn wf(&self) -> bool {
        &&& self.spec_phys() % PAGE_SIZE == 0
        &&& self.spec_len() == self.spec_pages() * PAGE_SIZE
        &&& self.spec_phys() + self.spec_len() <= usize::MAX
    }

    /// Describes the region of `pages` pages at physical address `phys`;
    /// `None` when `phys` is not the start of a page, and when such a region
    /// would not end within the address space.
    pub fn new(phys: usize, pages: usize) -> (buffer: Option<DmaBuffer>)
        ensures
            buffer is Some <==> phys % PAGE_SIZE == 0 && phys + pages * PAGE_SIZE <= usize::MAX,
            buffer matches Some(b) ==> b.wf() && b.spec_phys() == phys && b.spec_pages() == pages,
    {
        if phys % PAGE_SIZE != 0 || pages > usize::MAX / PAGE_SIZE {
            return None;
        }
        let len = pages * PAGE_SIZE;
        if phys > usize::MAX - len {
            return None;
        }
        Some(DmaBuffer { phys, pages, len })
    }

    /// The physical address of the first byte.
    #[verifier::when_used_as_spec(spec_phys)]
    pub fn phys(&self) -> (phys: usize)
        ensures
            phys == self.spec_phys(),
    {
        self.phys
    }

    /// The number of pages.
    #[verifier::when_used_as_spec(spec_pages)]
    pub fn pages(&self) -> (pages: usize)
        ensures
            pages == self.spec_pages(),
    {
        self.pages
    }

    /// The number of bytes.
    #[verifier::when_used_as_spec(spec_len)]
    pub fn len(&self) -> (len: usize)
        ensures
            len == self.spec_len(),
    {
        self.len
    }
}

/// The buffers that are free for the next packet.
pub struct BufferPool {
    free: Vec<DmaBuffer>,
}

impl View for BufferPool {
    type V = Seq<DmaBuffer>;

    /// The free buffers, the one to be taken next last.
    closed spec fn view(&self) -> Seq<DmaBuffer> {
        self.free@
    }
}

impl BufferPool {
    /// An empty pool.
    pub fn new() -> (pool: Self)
        ensures
            pool@ == Seq::<DmaBuffer>::empty(),
    {
        BufferPool { free: Vec::new() }
    }

    /// The number of free buffers.
    pub fn len(&self) -> (n: usize)
        ensures
            n == self@.len(),
    {
        self.free.len()
    }

    /// Takes the buffer that was returned last; `None` when the pool is
    /// empty.
    pub fn take(&mut self) -> (buffer: Option<DmaBuffer>)
        ensures
            match buffer {
                Some(b) => old(self)@.len() > 0 && b == old(self)@.last() && final(self)@ == old(
                    self,
                )@.drop_last(),
                None => old(self)@.len() == 0 && final(self)@ == old(self)@,
            },
    {
        self.free.pop()
    }

    /// Returns `buffer` to the pool.
    pub fn recycle(&mut self, buffer: DmaBuffer)
        ensures
            final(self)@ == old(self)@.push(buffer),
    {
        self.free.push(buffer);
    }
}

/// What the hardware queue answered when a buffer was submitted to it.
#[derive(Clone, Copy, Debug, PartialEq, Eq, Structural)]
pub enum SubmitOutcome {
    /// The queue took the buffer under this token.
    Queued(u16),
    /// The queue has no free descriptor.
    QueueFull,
    /// The queue refused the buffer for another reason.
    Failed,
}

/// The number of slots in `slots` that hold a buffer.
pub open spec fn occupied(slots: Seq<Option<DmaBuffer>>) -> nat
    decreases slots.len(),
{
    if slots.len() == 0 {
        0
    } else {
        occupied(slots.drop_last()) + if slots.last() is Some {
            1nat
        } else {
            0nat
        }
    }
}

/// Whether `outcome` names a slot of `slots`.
pub open spec fn names_slot(slots: Seq<Option<DmaBuffer>>, outcome: SubmitOutcome) -> bool {
    outcome matches SubmitOutcome::Queued(token) && token < slots.len()
}

/// The slots after `buffer` was submitted with `outcome`: a token within
/// the queue puts the buffer in its slot, anything else leaves the slots as
/// they are.
pub open spec fn slots_after_submit(
    slots: Seq<Option<DmaBuffer>>,
    buffer: DmaBuffer,
    outcome: SubmitOutcome,
) -> Seq<Option<DmaBuffer>> {
    if names_slot(slots, outcome) {
        slots.update(outcome->Queued_0 as int, Some(buffer))
    } else {
        slots
    }
}

/// The pool after `buffer` was submitted with `outcome`: a buffer that did
/// not get a slot comes back to the pool, and so does a buffer that the
/// named slot still held.
pub open spec fn pool_after_submit(
    pool: Seq<DmaBuffer>,
    slots: Seq<Option<DmaBuffer>>,
    buffer: DmaBuffer,
    outcome: SubmitOutcome,
) -> Seq<DmaBuffer> {
    if names_slot(slots, outcome) {
        match slots[outcome->Queued_0 as int] {
            Some(displaced) => pool.push(displaced),
            None => pool,
        }
    } else {
        pool.push(buffer)
    }
}

/// The buffer that completion of `token` releases: the one in its slot, and
/// none for a token outside the queue.
pub open spec fn released_by(slots: Seq<Option<DmaBuffer>>, token: u16) -> Option<DmaBuffer> {
    if token < slots.len() {
        slots[token as int]
    } else {
        None
    }
}

/// The slots after completion of `token`: its slot is empty, and a token
/// outside the queue changes nothing.
pub open spec fn slots_after_release(slots: Seq<Option<DmaBuffer>>, token: u16) -> Seq<
    Option<DmaBuffer>,
> {
    if token < slots.len() {
        slots.update(token as int, None)
    } else {
        slots
    }
}

/// Filling or emptying one slot changes the count of occupied slots by what
/// the slot gains or loses.
pub proof fn lemma_occupied_update(slots: Seq<Option<DmaBuffer>>, i: int, v: Option<DmaBuffer>)
    requires
        0 <= i < slots.len(),
    ensures
        occupied(slots.update(i, v)) + (if slots[i] is Some {
            1nat
        } else {
            0nat
        }) == occupied(slots) + (if v is Some {
            1nat
        } else {
            0nat
        }),
        occupied(slots) <= slots.len(),
    decreases slots.len(),
{
    let after = slots.update(i, v);
    if i == slots.len() - 1 {
        assert(after.drop_last() =~= slots.drop_last());
        lemma_occupied_bound(slots.drop_last());
    } else {
        assert(after.drop_last() =~= slots.drop_last().update(i, v));
        lemma_occupied_update(slots.drop_last(), i, v);
    }
}

/// No more slots are occupied than there are.
pub proof fn lemma_occupied_bound(slots: Seq<Option<DmaBuffer>>)
    ensures
        occupied(slots) <= slots.len(),
    decreases slots.len(),
{
    if slots.len() > 0 {
        lemma_occupied_bound(slots.drop_last());
    }
}

/// A received packet on its way to the protocol stack: the buffer that
/// holds it and the number of bytes in use, device header included.
pub struct VirtioRxTokenSafe {
    /// The buffer that holds the packet.
    pub buffer: Option<DmaBuffer>,
    /// The number of bytes in use.
    pub len: usize,
}

impl VirtioRxTokenSafe {
    /// The bytes in use include the device header and lie within the
    /// buffer.
    pub open spec fn wf(&self) -> bool {
        self.buffer matches Some(b) ==> VIRTIO_HEADER_LEN <= self.len <= b.spec_len()
    }

    /// Where in the buffer the packet lies: from the end of the device
    /// header to the end of the bytes in use, and nowhere when there is no
    /// buffer.
    pub fn payload_range(&self) -> (range: (usize, usize))
        requires
            self.wf(),
        ensures
            range == if self.buffer is Some {
                (VIRTIO_HEADER_LEN, self.len)
            } else {
                (0usize, 0usize)
            },
            range.0 <= range.1,
    {
        match &self.buffer {
            Some(_) => (VIRTIO_HEADER_LEN, self.len),
            None => (0, 0),
        }
    }

    /// The number of bytes in use, device header included.
    pub fn packet_len(&self) -> (len: usize)
        ensures
            len == self.len,
    {
        self.len
    }

    /// The physical address of the buffer, if there is one.
    pub fn buffer_phys(&self) -> (phys: Option<usize>)
        ensures
            phys == match self.buffer {
                Some(b) => Some(b.spec_phys()),
                None => None,
            },
    {
        match &self.buffer {
            Some(b) => Some(b.phys()),
            None => None,
        }
    }

    /// Ends the handle: its buffer goes back to `pool`.
    pub fn release(self, pool: &mut BufferPool)
        ensures
            final(pool)@ == match self.buffer {
                Some(b) => old(pool)@.push(b),
                None => old(pool)@,
            },
    {
        match self.buffer {
            Some(buf) => pool.recycle(buf),
            None => {},
        }
    }
}

/// What the device can do, as the protocol stack needs to know it.
#[derive(Clone, Copy, Debug, PartialEq, Eq, Structural)]
pub struct DeviceCaps {
    /// Largest packet, in bytes.
    pub max_transmission_unit: usize,
    /// Packets per burst, if limited.
    pub max_burst_size: Option<usize>,
    /// Whether the medium is Ethernet.
    pub ethernet: bool,
    /// Whether the device computes checksums; if not, the stack does.
    pub checksum_offload: bool,
}

/// The buffers that are with the device: for each direction one slot per
/// descriptor, which holds the buffer submitted under that token until the
/// device reports the token complete.
pub struct VirtioNetDevice {
    rx_buffers: Vec<Option<DmaBuffer>>,
    tx_buffers: Vec<Option<DmaBuffer>>,
}

impl VirtioNetDevice {
    /// The receive slots, by token.
    pub closed spec fn rx(&self) -> Seq<Option<DmaBuffer>> {
        self.rx_buffers@
    }

    /// The transmit slots, by token.
    pub closed spec fn tx(&self) -> Seq<Option<DmaBuffer>> {
        self.tx_buffers@
    }

    /// Each direction has `QUEUE_SIZE` slots.
    pub open spec fn wf(&self) -> bool {
        self.rx().len() == QUEUE_SIZE && self.tx().len() == QUEUE_SIZE
    }

    /// A device with nothing in flight.
    pub fn new() -> (device: Self)
        ensures
            device.wf(),
            forall|t: int| 0 <= t < QUEUE_SIZE ==> (#[trigger] device.rx()[t]) is None,
            forall|t: int| 0 <= t < QUEUE_SIZE ==> (#[trigger] device.tx()[t]) is None,
    {
        let mut rx_buffers: Vec<Option<DmaBuffer>> = Vec::with_capacity(QUEUE_SIZE);
        let mut tx_buffers: Vec<Option<DmaBuffer>> = Vec::with_capacity(QUEUE_SIZE);
        let mut n: usize = 0;
        while n < QUEUE_SIZE
            invariant
                n <= QUEUE_SIZE,
                rx_buffers@.len() == n,
                tx_buffers@.len() == n,
                forall|t: int| 0 <= t < n ==> (#[trigger] rx_buffers@[t]) is None,
                forall|t: int| 0 <= t < n ==> (#[trigger] tx_buffers@[t]) is None,
            decreases QUEUE_SIZE - n,
        {
            rx_buffers.push(None);
            tx_buffers.push(None);
            n += 1;
        }
        VirtioNetDevice { rx_buffers, tx_buffers }
    }

    /// Puts `buffer` where the queue's answer sends it.
    fn place(
        slots: &mut Vec<Option<DmaBuffer>>,
        pool: &mut BufferPool,
        buffer: DmaBuffer,
        outcome: SubmitOutcome,
    )
        ensures
            final(slots)@ == slots_after_submit(old(slots)@, buffer, outcome),
            final(pool)@ == pool_after_submit(old(pool)@, old(slots)@, buffer, outcome),
    {
        match outcome {
            SubmitOutcome::Queued(token) => {
                let t = token as usize;
                if t < slots.len() {
                    let mut entry = Some(buffer);
                    std::mem::swap(&mut slots[t], &mut entry);
                    match entry {
                        Some(displaced) => pool.recycle(displaced),
                        None => {},
                    }
                } else {
                    pool.recycle(buffer);
                }
            },
            _ => {
                pool.recycle(buffer);
            },
        }
    }

    /// Takes the buffer out of the slot of `token`, if it is a slot and
    /// holds one.
    fn release(slots: &mut Vec<Option<DmaBuffer>>, token: u16) -> (buffer: Option<DmaBuffer>)
        ensures
            buffer == released_by(old(slots)@, token),
            final(slots)@ == slots_after_release(old(slots)@, token),
    {
        let t = token as usize;
        if t < slots.len() {
            let mut entry: Option<DmaBuffer> = None;
            std::mem::swap(&mut slots[t], &mut entry);
            entry
        } else {
            None
        }
    }

    /// Records what the receive queue answered when `buffer` was submitted
    /// to it, and reports whether to go on refilling the queue. A token
    /// within the queue puts the buffer in flight; a token outside it, a full
    /// queue or a failure sends the buffer back to the pool. Refilling stops
    /// when the queue is full or failed.
    pub fn rx_submitted(
        &mut self,
        pool: &mut BufferPool,
        buffer: DmaBuffer,
        outcome: SubmitOutcome,
    ) -> (more: bool)
        requires
            old(self).wf(),
        ensures
            final(self).wf(),
            final(self).rx() == slots_after_submit(old(self).rx(), buffer, outcome),
            final(self).tx() == old(self).tx(),
            final(pool)@ == pool_after_submit(old(pool)@, old(self).rx(), buffer, outcome),
            more == (outcome is Queued),
    {
        Self::place(&mut self.rx_buffers, pool, buffer, outcome);
        match outcome {
            SubmitOutcome::Queued(_) => true,
            _ => false,
        }
    }

    /// Records what the transmit queue answered when `buffer` was submitted
    /// to it. A token within the queue puts the buffer in flight; anything
    /// else sends it back to the pool.
    pub fn tx_submitted(&mut self, pool: &mut BufferPool, buffer: DmaBuffer, outcome: SubmitOutcome)
        requires
            old(self).wf(),
        ensures
            final(self).wf(),
            final(self).tx() == slots_after_submit(old(self).tx(), buffer, outcome),
            final(self).rx() == old(self).rx(),
            final(pool)@ == pool_after_submit(old(pool)@, old(self).tx(), buffer, outcome),
    {
        Self::place(&mut self.tx_buffers, pool, buffer, outcome);
    }

    /// Takes the buffer that the device has filled under `token` out of its
    /// receive slot; `None` for a token outside the queue or an empty slot.
    pub fn take_received(&mut self, token: u16) -> (buffer: Option<DmaBuffer>)
        requires
            old(self).wf(),
        ensures
            final(self).wf(),
            buffer == released_by(old(self).rx(), token),
            final(self).rx() == slots_after_release(old(self).rx(), token),
            final(self).tx() == old(self).tx(),
    {
        Self::release(&mut self.rx_buffers, token)
    }

    /// Takes the buffer that the device has sent under `token` out of its
    /// transmit slot; `None` for a token outside the queue or an empty slot.
    pub fn complete_transmit(&mut self, token: u16) -> (buffer: Option<DmaBuffer>)
        requires
            old(self).wf(),
        ensures
            final(self).wf(),
            buffer == released_by(old(self).tx(), token),
            final(self).tx() == slots_after_release(old(self).tx(), token),
            final(self).rx() == old(self).rx(),
    {
        Self::release(&mut self.tx_buffers, token)
    }
}

/// Largest packet, in bytes, that the device carries.
pub const MTU: usize = 1500;

/// The handle for a buffer that the device has filled, if the packet
/// length that it reported, without the device header, fits in the buffer
/// behind the header; none when completion failed.
pub open spec fn handle_for(buffer: DmaBuffer, reported: Option<usize>) -> Option<
    VirtioRxTokenSafe,
> {
    match reported {
        Some(n) => if VIRTIO_HEADER_LEN + n <= buffer.spec_len() {
            Some(VirtioRxTokenSafe { buffer: Some(buffer), len: (VIRTIO_HEADER_LEN + n) as usize })
        } else {
            None
        },
        None => None,
    }
}

impl VirtioNetDevice {
    /// Wraps a buffer that the device has filled in a handle for the
    /// protocol stack. `reported` is the packet length that the device
    /// reported, without the device header, or `None` when completion failed.
    /// The handle is made when that length fits in the buffer behind the
    /// header; otherwise the buffer goes back to `pool`.
    pub fn receive_completed(pool: &mut BufferPool, buffer: DmaBuffer, reported: Option<usize>) -> (
        handle: Option<VirtioRxTokenSafe>
    )
        ensures
            handle == handle_for(buffer, reported),
            handle matches Some(h) ==> h.wf(),
            final(pool)@ == if handle is Some {
                old(pool)@
            } else {
                old(pool)@.push(buffer)
            },
    {
        match reported {
            Some(pkt_len) => {
                if buffer.len() >= VIRTIO_HEADER_LEN && pkt_len <= buffer.len()
                    - VIRTIO_HEADER_LEN {
                    Some(
                        VirtioRxTokenSafe {
                            buffer: Some(buffer),
                            len: pkt_len + VIRTIO_HEADER_LEN,
                        },
                    )
                } else {
                    pool.recycle(buffer);
                    None
                }
            },
            None => {
                pool.recycle(buffer);
                None
            },
        }
    }

    /// The number of bytes of `buffer` to hand to the transmit queue for a
    /// packet of `len` bytes: the device header and the packet; `None` when
    /// the buffer is too small for both.
    pub fn tx_frame_len(buffer: &DmaBuffer, len: usize) -> (total: Option<usize>)
        ensures
            total == if VIRTIO_HEADER_LEN + len <= buffer.spec_len() {
                Some((VIRTIO_HEADER_LEN + len) as usize)
            } else {
                None
            },
    {
        if buffer.len() >= VIRTIO_HEADER_LEN && len <= buffer.len() - VIRTIO_HEADER_LEN {
            Some(VIRTIO_HEADER_LEN + len)
        } else {
            None
        }
    }

    /// Counts the slots that hold a buffer.
    fn count_occupied(slots: &Vec<Option<DmaBuffer>>) -> (used: usize)
        ensures
            used == occupied(slots@),
            used <= slots@.len(),
    {
        let mut used: usize = 0;
        let mut t: usize = 0;
        assert(slots@.take(0) =~= Seq::<Option<DmaBuffer>>::empty());
        while t < slots.len()
            invariant
                t <= slots@.len(),
                used == occupied(slots@.take(t as int)),
                used <= t,
            decreases slots@.len() - t,
        {
            proof {
                let next = slots@.take(t + 1);
                assert(next.drop_last() =~= slots@.take(t as int));
                assert(next.last() == slots@[t as int]);
            }
            if slots[t].is_some() {
                used += 1;
            }
            t += 1;
        }
        assert(slots@.take(t as int) =~= slots@);
        used
    }

    /// The number of buffers that wait for the device to fill them.
    pub fn rx_in_flight(&self) -> (used: usize)
        requires
            self.wf(),
        ensures
            used == occupied(self.rx()),
            used <= QUEUE_SIZE,
    {
        Self::count_occupied(&self.rx_buffers)
    }

    /// The number of buffers that the device has yet to send.
    pub fn tx_in_flight(&self) -> (used: usize)
        requires
            self.wf(),
        ensures
            used == occupied(self.tx()),
            used <= QUEUE_SIZE,
    {
        Self::count_occupied(&self.tx_buffers)
    }

    /// Whether the transmit queue has room for another packet.
    pub fn can_transmit(&self) -> (room: bool)
        requires
            self.wf(),
        ensures
            room == (occupied(self.tx()) < QUEUE_SIZE),
    {
        self.tx_in_flight() < QUEUE_SIZE
    }

    /// What the device can do: Ethernet packets of up to `MTU` bytes, one
    /// at a time, with checksums left to the stack.
    pub fn capabilities(&self) -> (caps: DeviceCaps)
        ensures
            caps == (DeviceCaps {
                max_transmission_unit: MTU,
                max_burst_size: Some(1usize),
                ethernet: true,
                checksum_offload: false,
            }),
    {
        DeviceCaps {
            max_transmission_unit: MTU,
            max_burst_size: Some(1),
            ethernet: true,
            checksum_offload: false,
        }
    }
}

/// Where the buffers of a node are: in the pool, in a slot of either
/// direction, or lent out, that is in the hands of the driver between two
/// steps or of the protocol stack in a receive handle.
pub struct Pipeline {
    /// The free buffers.
    pub pool: Seq<DmaBuffer>,
    /// The receive slots.
    pub rx: Seq<Option<DmaBuffer>>,
    /// The transmit slots.
    pub tx: Seq<Option<DmaBuffer>>,
    /// The number of buffers lent out.
    pub lent: nat,
}

impl Pipeline {
    /// The number of buffers of the node.
    pub open spec fn total(self) -> nat {
        self.pool.len() + occupied(self.rx) + occupied(self.tx) + self.lent
    }
}

/// One step in the life of the buffers.
pub enum BufferOp {
    /// A newly allocated buffer is handed to the driver.
    Admit,
    /// The driver takes a buffer from the pool, if there is one.
    Take,
    /// A lent buffer is returned to the pool.
    Recycle(DmaBuffer),
    /// A lent buffer was submitted to the receive queue with this answer.
    SubmitRx(DmaBuffer, SubmitOutcome),
    /// A lent buffer was submitted to the transmit queue with this answer.
    SubmitTx(DmaBuffer, SubmitOutcome),
    /// The device reported this receive token complete.
    TakeReceived(u16),
    /// The device reported this transmit token complete.
    CompleteTransmit(u16),
}

/// One more if `buffer` is there.
pub open spec fn count_of(buffer: Option<DmaBuffer>) -> nat {
    if buffer is Some {
        1
    } else {
        0
    }
}

/// The buffers after `op`, as the operations of `BufferPool` and
/// `VirtioNetDevice` move them.
pub open spec fn apply(p: Pipeline, op: BufferOp) -> Pipeline {
    match op {
        BufferOp::Admit => Pipeline { lent: p.lent + 1, ..p },
        BufferOp::Take => if p.pool.len() > 0 {
            Pipeline { pool: p.pool.drop_last(), lent: p.lent + 1, ..p }
        } else {
            p
        },
        BufferOp::Recycle(b) => Pipeline { pool: p.pool.push(b), lent: (p.lent - 1) as nat, ..p },
        BufferOp::SubmitRx(b, o) => Pipeline {
            pool: pool_after_submit(p.pool, p.rx, b, o),
            rx: slots_after_submit(p.rx, b, o),
            lent: (p.lent - 1) as nat,
            ..p
        },
        BufferOp::SubmitTx(b, o) => Pipeline {
            pool: pool_after_submit(p.pool, p.tx, b, o),
            tx: slots_after_submit(p.tx, b, o),
            lent: (p.lent - 1) as nat,
            ..p
        },
        BufferOp::TakeReceived(t) => Pipeline {
            rx: slots_after_release(p.rx, t),
            lent: p.lent + count_of(released_by(p.rx, t)),
            ..p
        },
        BufferOp::CompleteTransmit(t) => Pipeline {
            tx: slots_after_release(p.tx, t),
            lent: p.lent + count_of(released_by(p.tx, t)),
            ..p
        },
    }
}

/// Whether `op` can happen: a buffer that is handed in was lent out before.
pub open spec fn permitted(p: Pipeline, op: BufferOp) -> bool {
    match op {
        BufferOp::Recycle(_) | BufferOp::SubmitRx(_, _) | BufferOp::SubmitTx(_, _) => p.lent > 0,
        _ => true,
    }
}

/// The buffers after the steps `ops`, one after the other.
pub open spec fn run(p: Pipeline, ops: Seq<BufferOp>) -> Pipeline
    decreases ops.len(),
{
    if ops.len() == 0 {
        p
    } else {
        apply(run(p, ops.drop_last()), ops.last())
    }
}

/// Whether each of the steps `ops` can happen when its turn comes.
pub open spec fn all_permitted(p: Pipeline, ops: Seq<BufferOp>) -> bool
    decreases ops.len(),
{
    ops.len() == 0 || (all_permitted(p, ops.drop_last()) && permitted(
        run(p, ops.drop_last()),
        ops.last(),
    ))
}

/// The number of newly allocated buffers among the steps `ops`.
pub open spec fn admissions(ops: Seq<BufferOp>) -> nat
    decreases ops.len(),
{
    if ops.len() == 0 {
        0
    } else {
        admissions(ops.drop_last()) + if ops.last() is Admit {
            1nat
        } else {
            0nat
        }
    }
}

/// A submission moves one lent buffer into a slot or the pool, and a buffer
/// that it displaces into the pool: none is lost and none is made.
pub proof fn lemma_submit_conserves(
    pool: Seq<DmaBuffer>,
    slots: Seq<Option<DmaBuffer>>,
    buffer: DmaBuffer,
    outcome: SubmitOutcome,
)
    ensures
        pool_after_submit(pool, slots, buffer, outcome).len() + occupied(
            slots_after_submit(slots, buffer, outcome),
        ) == pool.len() + occupied(slots) + 1,
{
    if names_slot(slots, outcome) {
        lemma_occupied_update(slots, outcome->Queued_0 as int, Some(buffer));
    }
}

/// A completion moves the buffer of its slot, if any, out of the slots.
pub proof fn lemma_release_conserves(slots: Seq<Option<DmaBuffer>>, token: u16)
    ensures
        occupied(slots_after_release(slots, token)) + count_of(released_by(slots, token))
            == occupied(slots),
{
    if token < slots.len() {
        lemma_occupied_update(slots, token as int, None);
    }
}

/// One step changes the number of buffers only by admitting a new one.
pub proof fn lemma_step_conserves(p: Pipeline, op: BufferOp)
    requires
        permitted(p, op),
    ensures
        apply(p, op).total() == p.total() + if op is Admit {
            1nat
        } else {
            0nat
        },
{
    match op {
        BufferOp::SubmitRx(b, o) => lemma_submit_conserves(p.pool, p.rx, b, o),
        BufferOp::SubmitTx(b, o) => lemma_submit_conserves(p.pool, p.tx, b, o),
        BufferOp::TakeReceived(t) => lemma_release_conserves(p.rx, t),
        BufferOp::CompleteTransmit(t) => lemma_release_conserves(p.tx, t),
        _ => {},
    }
}

/// Over any sequence of steps the buffers in the pool, in flight in either
/// direction and lent out number what they did at the start, plus those
/// newly allocated on the way.
pub proof fn lemma_buffers_conserved(p: Pipeline, ops: Seq<BufferOp>)
    requires
        all_permitted(p, ops),
    ensures
        run(p, ops).total() == p.total() + admissions(ops),
    decreases ops.len(),
{
    if ops.len() > 0 {
        lemma_buffers_conserved(p, ops.drop_last());
        lemma_step_conserves(run(p, ops.drop_last()), ops.last());
    }
}

/// What a pass over the device is for.
#[derive(Clone, Copy, Debug, PartialEq, Eq, Structural)]
pub enum PassKind {
    /// The protocol stack asks for a received packet.
    Receive,
    /// The protocol stack asks for leave to send a packet.
    Transmit,
}

/// What a pass waits for: the report on the step it asked for last.
#[derive(Clone, Copy, Debug, PartialEq, Eq, Structural)]
pub enum PassPhase {
    /// That the interrupts are acknowledged.
    Acknowledged,
    /// What the transmit queue is done with.
    Transmitted,
    /// That the transmit queue has let go of a buffer.
    TransmitCompleted,
    /// A new buffer.
    Allocated,
    /// The receive queue's answer to a submission.
    Submitted,
    /// What the receive queue is done with.
    Received,
    /// That the receive queue has let go of a buffer.
    ReceiveCompleted,
    /// Nothing: the pass has ended.
    Done,
}

/// A step that a pass asks its driver to take on the hardware.
pub enum PassAction {
    /// Acknowledge the device's interrupts.
    AckInterrupt,
    /// Ask the transmit queue for a token that it is done with.
    PollTransmit,
    /// Tell the transmit queue that this token is complete, with its
    /// buffer.
    CompleteTransmit(u16, DmaBuffer),
    /// Allocate a buffer: the pool is empty.
    Allocate,
    /// Submit this buffer to the receive queue.
    SubmitReceive(DmaBuffer),
    /// Ask the receive queue for a token that it is done with.
    PollReceive,
    /// Tell the receive queue that this token is complete, with its buffer.
    CompleteReceive(u16, DmaBuffer),
    /// The pass ends with this packet.
    Deliver(VirtioRxTokenSafe),
    /// The pass ends with leave to send.
    GrantTransmit,
    /// The pass ends with nothing.
    Finish,
}

/// What the driver reports of the step it took.
pub enum PassEvent {
    /// The interrupts are acknowledged.
    Acknowledged,
    /// The transmit queue is done with this token, or with none.
    Transmitted(Option<u16>),
    /// The transmit queue has let go of this buffer.
    TransmitCompleted(DmaBuffer),
    /// This buffer was allocated, or none could be.
    Allocated(Option<DmaBuffer>),
    /// The receive queue answered this to the submission of this buffer.
    Submitted(DmaBuffer, SubmitOutcome),
    /// The receive queue is done with this token, or with none.
    Received(Option<u16>),
    /// The receive queue has let go of this buffer and reports a packet of
    /// this length in it, or failed to.
    ReceiveCompleted(DmaBuffer, Option<usize>),
}

/// A pass and the buffers it works on.
pub struct PassState {
    /// What the pass is for.
    pub kind: PassKind,
    /// What the pass waits for.
    pub awaiting: PassPhase,
    /// The free buffers.
    pub pool: Seq<DmaBuffer>,
    /// The receive slots.
    pub rx: Seq<Option<DmaBuffer>>,
    /// The transmit slots.
    pub tx: Seq<Option<DmaBuffer>>,
}

/// The next step of refilling the receive queue: submit the buffer that
/// was returned to the pool last, or have one allocated when the pool is
/// empty.
pub open spec fn refill(s: PassState) -> (PassState, PassAction) {
    if s.pool.len() > 0 {
        (
            PassState { awaiting: PassPhase::Submitted, pool: s.pool.drop_last(), ..s },
            PassAction::SubmitReceive(s.pool.last()),
        )
    } else {
        (PassState { awaiting: PassPhase::Allocated, ..s }, PassAction::Allocate)
    }
}

/// What follows once the transmit queue has no more tokens to give back: a
/// receive pass refills the receive queue, a transmit pass ends, with leave
/// to send if a transmit slot is free.
pub open spec fn after_reaping(s: PassState) -> (PassState, PassAction) {
    match s.kind {
        PassKind::Receive => refill(s),
        PassKind::Transmit => (
            PassState { awaiting: PassPhase::Done, ..s },
            if occupied(s.tx) < QUEUE_SIZE {
                PassAction::GrantTransmit
            } else {
                PassAction::Finish
            },
        ),
    }
}

/// The buffer that comes with `event`, if any.
pub open spec fn carried_by(event: PassEvent) -> Option<DmaBuffer> {
    match event {
        PassEvent::TransmitCompleted(b) => Some(b),
        PassEvent::Allocated(b) => b,
        PassEvent::Submitted(b, _) => Some(b),
        PassEvent::ReceiveCompleted(b, _) => Some(b),
        _ => None,
    }
}

/// The buffer that goes out with `action`, if any.
pub open spec fn carried_out(action: PassAction) -> Option<DmaBuffer> {
    match action {
        PassAction::CompleteTransmit(_, b) => Some(b),
        PassAction::SubmitReceive(b) => Some(b),
        PassAction::CompleteReceive(_, b) => Some(b),
        PassAction::Deliver(h) => h.buffer,
        _ => None,
    }
}

/// The end of a pass that was told something it did not wait for: a buffer
/// that came with the report goes to the pool.
pub open spec fn give_up(s: PassState, event: PassEvent) -> (PassState, PassAction) {
    (
        PassState {
            awaiting: PassPhase::Done,
            pool: match carried_by(event) {
                Some(b) => s.pool.push(b),
                None => s.pool,
            },
            ..s
        },
        PassAction::Finish,
    )
}

/// One step of a pass: what `event` makes of the pass and its buffers, and
/// what the driver is to do next.
///
/// A receive pass acknowledges the interrupts, takes back the buffers of
/// all packets that were sent, refills the receive queue until the queue is
/// full or buffers run out, and then delivers one received packet, if there
/// is one. A transmit pass takes back the buffers of all packets that were
/// sent and then grants leave to send if a transmit slot is free.
pub open spec fn pass_step(s: PassState, event: PassEvent) -> (PassState, PassAction) {
    match (s.awaiting, event) {
        (PassPhase::Acknowledged, PassEvent::Acknowledged) => (
            PassState { awaiting: PassPhase::Transmitted, ..s },
            PassAction::PollTransmit,
        ),
        (PassPhase::Transmitted, PassEvent::Transmitted(None)) => after_reaping(s),
        (PassPhase::Transmitted, PassEvent::Transmitted(Some(token))) => match released_by(
            s.tx,
            token,
        ) {
            Some(b) => (
                PassState {
                    awaiting: PassPhase::TransmitCompleted,
                    tx: slots_after_release(s.tx, token),
                    ..s
                },
                PassAction::CompleteTransmit(token, b),
            ),
            None => (s, PassAction::PollTransmit),
        },
        (PassPhase::TransmitCompleted, PassEvent::TransmitCompleted(b)) => (
            PassState { awaiting: PassPhase::Transmitted, pool: s.pool.push(b), ..s },
            PassAction::PollTransmit,
        ),
        (PassPhase::Allocated, PassEvent::Allocated(Some(b))) => (
            PassState { awaiting: PassPhase::Submitted, ..s },
            PassAction::SubmitReceive(b),
        ),
        (PassPhase::Allocated, PassEvent::Allocated(None)) => (
            PassState { awaiting: PassPhase::Received, ..s },
            PassAction::PollReceive,
        ),
        (PassPhase::Submitted, PassEvent::Submitted(b, outcome)) => {
            let placed = PassState {
                pool: pool_after_submit(s.pool, s.rx, b, outcome),
                rx: slots_after_submit(s.rx, b, outcome),
                ..s
            };
            if outcome is Queued {
                refill(placed)
            } else {
                (PassState { awaiting: PassPhase::Received, ..placed }, PassAction::PollReceive)
            }
        },
        (PassPhase::Received, PassEvent::Received(None)) => (
            PassState { awaiting: PassPhase::Done, ..s },
            PassAction::Finish,
        ),
        (PassPhase::Received, PassEvent::Received(Some(token))) => match released_by(
            s.rx,
            token,
        ) {
            Some(b) => (
                PassState {
                    awaiting: PassPhase::ReceiveCompleted,
                    rx: slots_after_release(s.rx, token),
                    ..s
                },
                PassAction::CompleteReceive(token, b),
            ),
            None => (PassState { awaiting: PassPhase::Done, ..s }, PassAction::Finish),
        },
        (PassPhase::ReceiveCompleted, PassEvent::ReceiveCompleted(b, reported)) => match handle_for(
            b,
            reported,
        ) {
            Some(h) => (PassState { awaiting: PassPhase::Done, ..s }, PassAction::Deliver(h)),
            None => (
                PassState { awaiting: PassPhase::Done, pool: s.pool.push(b), ..s },
                PassAction::Finish,
            ),
        },
        _ => give_up(s, event),
    }
}

/// A step of a pass neither loses a buffer nor makes one: the buffers in
/// the pool and in flight, with the one that goes out with the action, are
/// those from before the step with the one that came with the event.
pub proof fn lemma_pass_step_conserves(s: PassState, event: PassEvent)
    ensures
        ({
            let (next, action) = pass_step(s, event);
            next.pool.len() + occupied(next.rx) + occupied(next.tx) + count_of(carried_out(action))
                == s.pool.len() + occupied(s.rx) + occupied(s.tx) + count_of(carried_by(event))
        }),
{
    match (s.awaiting, event) {
        (PassPhase::Transmitted, PassEvent::Transmitted(Some(token))) => {
            lemma_release_conserves(s.tx, token);
        },
        (PassPhase::Submitted, PassEvent::Submitted(b, outcome)) => {
            lemma_submit_conserves(s.pool, s.rx, b, outcome);
        },
        (PassPhase::Received, PassEvent::Received(Some(token))) => {
            lemma_release_conserves(s.rx, token);
        },
        _ => {},
    }
}

/// One pass over the device, step by step: the pass says what to do on the
/// hardware, the driver does it and reports back.
pub struct DevicePass {
    kind: PassKind,
    awaiting: PassPhase,
}

impl DevicePass {
    /// What the pass is for.
    pub closed spec fn kind(&self) -> PassKind {
        self.kind
    }

    /// What the pass waits for.
    pub closed spec fn awaiting(&self) -> PassPhase {
        self.awaiting
    }

    /// The pass together with the buffers of `device` and `pool`.
    pub open spec fn state(&self, device: &VirtioNetDevice, pool: &BufferPool) -> PassState {
        PassState {
            kind: self.kind(),
            awaiting: self.awaiting(),
            pool: pool@,
            rx: device.rx(),
            tx: device.tx(),
        }
    }

    /// Starts a receive pass: first the interrupts are acknowledged.
    pub fn begin_receive() -> (begun: (DevicePass, PassAction))
        ensures
            begun.0.kind() == PassKind::Receive,
            begun.0.awaiting() == PassPhase::Acknowledged,
            begun.1 == PassAction::AckInterrupt,
    {
        (
            DevicePass { kind: PassKind::Receive, awaiting: PassPhase::Acknowledged },
            PassAction::AckInterrupt,
        )
    }

    /// Starts a transmit pass: first the transmit queue is asked for the
    /// tokens that it is done with.
    pub fn begin_transmit() -> (begun: (DevicePass, PassAction))
        ensures
            begun.0.kind() == PassKind::Transmit,
            begun.0.awaiting() == PassPhase::Transmitted,
            begun.1 == PassAction::PollTransmit,
    {
        (
            DevicePass { kind: PassKind::Transmit, awaiting: PassPhase::Transmitted },
            PassAction::PollTransmit,
        )
    }

    /// Whether the pass has ended.
    pub fn is_done(&self) -> (done: bool)
        ensures
            done == (self.awaiting() == PassPhase::Done),
    {
        match self.awaiting {
            PassPhase::Done => true,
            _ => false,
        }
    }

    /// The next step of refilling.
    fn next_refill(&mut self, pool: &mut BufferPool) -> (action: PassAction)
        ensures
            final(self).kind() == old(self).kind(),
            ({
                let before = PassState {
                    kind: old(self).kind(),
                    awaiting: old(self).awaiting(),
                    pool: old(pool)@,
                    rx: Seq::empty(),
                    tx: Seq::empty(),
                };
                &&& final(self).awaiting() == refill(before).0.awaiting
                &&& final(pool)@ == refill(before).0.pool
                &&& action == refill(before).1
            }),
    {
        match pool.take() {
            Some(buffer) => {
                self.awaiting = PassPhase::Submitted;
                PassAction::SubmitReceive(buffer)
            },
            None => {
                self.awaiting = PassPhase::Allocated;
                PassAction::Allocate
            },
        }
    }

    /// Ends the pass; a buffer that is left over goes to the pool.
    fn end(&mut self, pool: &mut BufferPool, left: Option<DmaBuffer>) -> (action: PassAction)
        ensures
            final(self).kind() == old(self).kind(),
            final(self).awaiting() == PassPhase::Done,
            final(pool)@ == match left {
                Some(b) => old(pool)@.push(b),
                None => old(pool)@,
            },
            action == PassAction::Finish,
    {
        self.awaiting = PassPhase::Done;
        match left {
            Some(buffer) => pool.recycle(buffer),
            None => {},
        }
        PassAction::Finish
    }

    /// Takes the pass one step further on the report `event` and returns
    /// what the driver is to do next.
    pub fn step(&mut self, device: &mut VirtioNetDevice, pool: &mut BufferPool, event: PassEvent) -> (
        action: PassAction
    )
        requires
            old(device).wf(),
        ensures
            final(device).wf(),
            (final(self).state(final(device), final(pool)), action) == pass_step(
                old(self).state(old(device), old(pool)),
                event,
            ),
    {
        let ghost before = self.state(device, pool);
        let action = match (self.awaiting, event) {
            (PassPhase::Acknowledged, PassEvent::Acknowledged) => {
                self.awaiting = PassPhase::Transmitted;
                PassAction::PollTransmit
            },
            (PassPhase::Transmitted, PassEvent::Transmitted(None)) => {
                match self.kind {
                    PassKind::Receive => self.next_refill(pool),
                    PassKind::Transmit => {
                        self.awaiting = PassPhase::Done;
                        if device.can_transmit() {
                            PassAction::GrantTransmit
                        } else {
                            PassAction::Finish
                        }
                    },
                }
            },
            (PassPhase::Transmitted, PassEvent::Transmitted(Some(token))) => {
                match device.complete_transmit(token) {
                    Some(buffer) => {
                        self.awaiting = PassPhase::TransmitCompleted;
                        PassAction::CompleteTransmit(token, buffer)
                    },
                    None => {
                        assert(device.tx() =~= before.tx);
                        PassAction::PollTransmit
                    },
                }
            },
            (PassPhase::TransmitCompleted, PassEvent::TransmitCompleted(buffer)) => {
                pool.recycle(buffer);
                self.awaiting = PassPhase::Transmitted;
                PassAction::PollTransmit
            },
            (PassPhase::Allocated, PassEvent::Allocated(Some(buffer))) => {
                self.awaiting = PassPhase::Submitted;
                PassAction::SubmitReceive(buffer)
            },
            (PassPhase::Allocated, PassEvent::Allocated(None)) => {
                self.awaiting = PassPhase::Received;
                PassAction::PollReceive
            },
            (PassPhase::Submitted, PassEvent::Submitted(buffer, outcome)) => {
                if device.rx_submitted(pool, buffer, outcome) {
                    self.next_refill(pool)
                } else {
                    self.awaiting = PassPhase::Received;
                    PassAction::PollReceive
                }
            },
            (PassPhase::Received, PassEvent::Received(None)) => self.end(pool, None),
            (PassPhase::Received, PassEvent::Received(Some(token))) => {
                match device.take_received(token) {
                    Some(buffer) => {
                        self.awaiting = PassPhase::ReceiveCompleted;
                        PassAction::CompleteReceive(token, buffer)
                    },
                    None => {
                        assert(device.rx() =~= before.rx);
                        self.end(pool, None)
                    },
                }
            },
            (PassPhase::ReceiveCompleted, PassEvent::ReceiveCompleted(buffer, reported)) => {
                self.awaiting = PassPhase::Done;
                match VirtioNetDevice::receive_completed(pool, buffer, reported) {
                    Some(handle) => PassAction::Deliver(handle),
                    None => PassAction::Finish,
                }
            },
            (_, PassEvent::TransmitCompleted(buffer)) => self.end(pool, Some(buffer)),
            (_, PassEvent::Allocated(left)) => self.end(pool, left),
            (_, PassEvent::Submitted(buffer, _)) => self.end(pool, Some(buffer)),
            (_, PassEvent::ReceiveCompleted(buffer, _)) => self.end(pool, Some(buffer)),
            (_, _) => self.end(pool, None),
        };
        action
    }
}

} // verus!
