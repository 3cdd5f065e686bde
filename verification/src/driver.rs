//! The readiness bookkeeping of the I/O reactor: which readiness bits an event sets,
//! which tasks it wakes, and when a handle counts as readable or writable.
//!
//! Readiness is held as the `usize` form of a `mio::Ready` set, as the reactor's
//! entries hold it.

use vstd::prelude::*;

verus! {

/// Calls `mio::Ready::all()` and takes its `usize` form. In mio 0.6 on Unix the set
/// holds the readable bit `1`, the writable bit `2`, the error bit `4` and the
/// hang-up bit `8`, and, depending on the system, the AIO bit `16`, the LIO bit `32`
/// and the priority bit `64`, and no other; the contract states the four bits that
/// are always there and that no bit above `64` is.
#[verifier::external_body]
fn mio_all() -> (r: usize)
    ensures
        r < 128,
        r & 1 == 1,
        r & 2 == 2,
        r & 4 == 4,
        r & 8 == 8,
{
    mio::Ready::all().as_usize()
}

/// Calls `mio::Ready::writable()` and takes its `usize` form, which mio 0.6 defines
/// as the bit `2`.
#[verifier::external_body]
fn mio_writable() -> (r: usize)
    ensures
        r == 2,
{
    mio::Ready::writable().as_usize()
}

/// Calls `mio::unix::UnixReady::hup()` and takes the `usize` form of the `Ready`
/// set it converts to, which mio 0.6 defines as the bit `8`.
#[verifier::external_body]
fn mio_hup() -> (r: usize)
    ensures
        r == 8,
{
    mio::Ready::from(mio::unix::UnixReady::hup()).as_usize()
}

/// Whether the readiness set `ready` shares a bit with `mask`.
pub open spec fn overlaps(ready: usize, mask: usize) -> bool {
    ready & mask != 0
}

/// The readiness of one registered I/O source, with the masks that decide which
/// bits wake its readers and which its writers.
#[derive(Debug)]
pub struct Readiness {
    bits: usize,
    reader_mask: usize,
    writer_mask: usize,
    hup_bit: usize,
}

impl Readiness {
    /// The readiness bits that are set.
    pub closed spec fn bits(&self) -> usize {
        self.bits
    }

    /// The bits that concern readers: all of them but writable.
    pub closed spec fn reader_interests(&self) -> usize {
        self.reader_mask
    }

    /// The bits that concern writers: writable and hang-up.
    pub closed spec fn writer_interests(&self) -> usize {
        self.writer_mask
    }

    /// The hang-up bit.
    pub closed spec fn hup(&self) -> usize {
        self.hup_bit
    }

    /// The masks as the reactor builds them: readers are concerned with every bit
    /// of `mio::Ready::all()` but writable (the error bit among them), writers with
    /// writable and hang-up.
    pub closed spec fn masks_wf(&self) -> bool {
        &&& self.hup_bit == 8
        &&& self.writer_mask == 2 | 8
        &&& self.reader_mask & 2 == 0
        &&& self.reader_mask & 1 == 1
        &&& self.reader_mask & 4 == 4
        &&& self.reader_mask & 8 == 8
        &&& self.reader_mask < 128
    }

    /// No readiness yet, with masks built from the `usize` forms of
    /// `mio::Ready::all()`, `mio::Ready::writable()` and the hang-up set: readers are
    /// concerned with all of `all` but `writable`; writers with `writable` and `hup`.
    pub fn with_ready(all: usize, writable: usize, hup: usize) -> (r: Readiness)
        ensures
            r.bits() == 0,
            r.reader_interests() == all & !writable,
            r.writer_interests() == writable | hup,
            r.hup() == hup,
    {
        Readiness { bits: 0, reader_mask: all & !writable, writer_mask: writable | hup, hup_bit: hup }
    }

    /// No readiness yet, with the reactor's masks: readers are concerned with every
    /// bit of `mio::Ready::all()` but writable, writers with writable and hang-up.
    /// Which system-dependent bits `all()` adds is not stated; `with_ready` gives
    /// the masks exactly for a given `all`.
    pub fn new() -> (r: Readiness)
        ensures
            r.bits() == 0,
            r.writer_interests() == 2usize | 8usize,
            r.hup() == 8,
            r.masks_wf(),
    {
        let all = mio_all();
        let writable = mio_writable();
        let hup = mio_hup();
        let r = Readiness::with_ready(all, writable, hup);
        let reader_mask = r.reader_mask;
        assert(reader_mask & 2 == 0 && reader_mask & 1 == 1 && reader_mask & 4 == 4 && reader_mask & 8
            == 8 && reader_mask < 128) by (bit_vector)
            requires
                reader_mask == all & !2usize,
                all < 128,
                all & 1 == 1,
                all & 4 == 4,
                all & 8 == 8,
        ;
        r
    }

    /// Whether a reader may proceed: some bit that concerns readers is set.
    pub fn is_readable(&self) -> (r: bool)
        ensures
            r == overlaps(self.bits(), self.reader_interests()),
    {
        self.bits & self.reader_mask != 0
    }

    /// Whether a writer may proceed: some bit that concerns writers is set.
    pub fn is_writable(&self) -> (r: bool)
        ensures
            r == overlaps(self.bits(), self.writer_interests()),
    {
        self.bits & self.writer_mask != 0
    }

    /// Takes in an event with readiness `event`: its bits are added, and the
    /// result says whether to wake the blocked readers and the blocked writers,
    /// each of which is woken when the event has a bit that concerns it.
    pub fn record_event(&mut self, event: usize) -> (wake: (bool, bool))
        ensures
            final(self).bits() == old(self).bits() | event,
            final(self).reader_interests() == old(self).reader_interests(),
            final(self).writer_interests() == old(self).writer_interests(),
            final(self).hup() == old(self).hup(),
            wake.0 == overlaps(event, old(self).reader_interests()),
            wake.1 == overlaps(event, old(self).writer_interests()),
    {
        self.bits = self.bits | event;
        (event & self.reader_mask != 0, event & self.writer_mask != 0)
    }

    /// Clears the bits that concern readers, except hang-up, after a read found
    /// nothing to read; hang-up stays, since a closed source stays closed.
    pub fn clear_readable(&mut self)
        ensures
            final(self).bits() == old(self).bits() & !(old(self).reader_interests()
                & !old(self).hup()),
            final(self).reader_interests() == old(self).reader_interests(),
            final(self).writer_interests() == old(self).writer_interests(),
            final(self).hup() == old(self).hup(),
    {
        self.bits = self.bits & !(self.reader_mask & !self.hup_bit);
    }

    /// Clears the bits that concern writers, except hang-up, after a write found
    /// no room.
    pub fn clear_writable(&mut self)
        ensures
            final(self).bits() == old(self).bits() & !(old(self).writer_interests()
                & !old(self).hup()),
            final(self).reader_interests() == old(self).reader_interests(),
            final(self).writer_interests() == old(self).writer_interests(),
            final(self).hup() == old(self).hup(),
    {
        self.bits = self.bits & !(self.writer_mask & !self.hup_bit);
    }
}

/// A hang-up stays readable and writable after either kind of readiness is
/// cleared: a closed source keeps waking its readers and writers.
pub proof fn hang_up_survives_clearing(r: Readiness)
    requires
        r.masks_wf(),
        r.bits() & r.hup() != 0,
    ensures
        overlaps(r.bits() & !(r.reader_interests() & !r.hup()), r.reader_interests()),
        overlaps(r.bits() & !(r.writer_interests() & !r.hup()), r.writer_interests()),
{
    let bits = r.bits;
    let rm = r.reader_mask;
    let wm = r.writer_mask;
    let h = r.hup_bit;
    assert(bits & !(rm & !h) & rm != 0) by (bit_vector)
        requires
            bits & h != 0,
            h == 8,
            rm & 8 == 8,
    ;
    assert(bits & !(wm & !h) & wm != 0) by (bit_vector)
        requires
            bits & h != 0,
            h == 8,
            wm == 2 | 8,
    ;
}

/// Readiness is shared bits: a readiness set concerns a side exactly when it has a
/// bit in common with that side's mask, however many bits it has; adding readiness
/// never takes it away; and with the reactor's masks, any event that holds the
/// readable, error or hang-up bit wakes the readers, and any event that holds the
/// writable or hang-up bit wakes the writers.
pub proof fn any_shared_bit_wakes(r: Readiness, event: usize)
    requires
        r.masks_wf(),
    ensures
        forall|a: usize, m: usize, b: usize|
            #![trigger overlaps(a, m), overlaps(a | b, m)]
            overlaps(a, m) ==> overlaps(a | b, m),
        forall|a: usize, m: usize, i: usize|
            #![trigger overlaps(a, m), a & (1usize << i)]
            i < 64 && a & (1usize << i) != 0 && m & (1usize << i) != 0 ==> overlaps(a, m),
        event & 1 != 0 ==> overlaps(event, r.reader_interests()),
        event & 4 != 0 ==> overlaps(event, r.reader_interests()),
        event & 8 != 0 ==> overlaps(event, r.reader_interests()) && overlaps(event, r.writer_interests()),
        event & 2 != 0 ==> overlaps(event, r.writer_interests()),
        !overlaps(event, r.reader_interests()) ==> event & 1 == 0 && event & 4 == 0 && event & 8 == 0,
        overlaps(event, r.writer_interests()) <==> (event & 2 != 0 || event & 8 != 0),
{
    assert forall|a: usize, m: usize, b: usize| overlaps(a, m) implies overlaps(a | b, m) by {
        assert((a | b) & m != 0) by (bit_vector)
            requires
                a & m != 0,
        ;
    }
    assert forall|a: usize, m: usize, i: usize|
        i < 64 && a & (1usize << i) != 0 && m & (1usize << i) != 0 implies overlaps(a, m) by {
        assert(a & m != 0) by (bit_vector)
            requires
                i < 64,
                a & (1usize << i) != 0,
                m & (1usize << i) != 0,
        ;
    }
    let rm = r.reader_mask;
    let wm = r.writer_mask;
    assert(event & 1 != 0 ==> event & rm != 0) by (bit_vector)
        requires
            rm & 1 == 1,
    ;
    assert(event & 4 != 0 ==> event & rm != 0) by (bit_vector)
        requires
            rm & 4 == 4,
    ;
    assert(event & 8 != 0 ==> event & rm != 0 && event & wm != 0) by (bit_vector)
        requires
            rm & 8 == 8,
            wm == 2 | 8,
    ;
    assert(event & 2 != 0 ==> event & wm != 0) by (bit_vector)
        requires
            wm == 2 | 8,
    ;
    assert(event & wm != 0 <==> (event & 2 != 0 || event & 8 != 0)) by (bit_vector)
        requires
            wm == 2 | 8,
    ;
}

} // verus!
