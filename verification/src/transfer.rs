//! Bytes on their way: an upload as it is written, and the traffic between two
//! readings of the counters.

use vstd::prelude::*;

verus! {

/// The sum of some lengths.
pub open spec fn total(lens: Seq<u64>) -> nat
    decreases lens.len(),
{
    if lens.len() == 0 {
        0
    } else {
        total(lens.drop_last()) + lens.last() as nat
    }
}

/// The size that an upload stands at after a piece of `len` bytes, where it
/// stood at `size` before: a piece that cannot be written makes it count as
/// empty.
pub open spec fn size_with_piece(size: u64, len: u64, written: bool) -> u64 {
    if written {
        (size + len) as u64
    } else {
        0
    }
}

/// The size that an upload is registered with, or nothing where it is not
/// registered. An upload of no bytes is registered only where its file is on
/// disk.
pub open spec fn registered_size(size: u64, on_disk: bool) -> Option<u64> {
    if size == 0 && !on_disk {
        None
    } else {
        Some(size)
    }
}

/// An upload as it is written to disk, piece by piece.
#[derive(Debug)]
pub struct UploadProgress {
    size: u64,
    stopped: bool,
}

impl UploadProgress {
    /// The bytes that were written, or zero after a failure.
    pub closed spec fn size(&self) -> u64 {
        self.size
    }

    /// Whether writing failed.
    pub closed spec fn stopped(&self) -> bool {
        self.stopped
    }

    /// An upload of which nothing has been written.
    pub fn new() -> (progress: UploadProgress)
        ensures
            progress.size() == 0,
            !progress.stopped(),
    {
        UploadProgress { size: 0, stopped: false }
    }

    /// Takes note of a piece of `len` bytes, and of whether it was written. Says
    /// whether to go on.
    pub fn wrote(&mut self, len: u64, written: bool) -> (go_on: bool)
        requires
            !old(self).stopped(),
            old(self).size() + len <= u64::MAX,
        ensures
            go_on == written,
            final(self).stopped() == !written,
            final(self).size() == size_with_piece(old(self).size(), len, written),
    {
        self.size = self.size + len;
        if !written {
            self.size = 0;
            self.stopped = true;
        }
        written
    }

    /// The size to register the upload with, once it has ended.
    pub fn finish(self, on_disk: bool) -> (size: Option<u64>)
        ensures
            size == registered_size(self.size(), on_disk),
    {
        if self.size == 0 && !on_disk {
            None
        } else {
            Some(self.size)
        }
    }
}

/// The size that an upload stands at after the pieces `lens`, all of which were
/// written.
pub open spec fn size_with_pieces(lens: Seq<u64>) -> u64
    decreases lens.len(),
{
    if lens.len() == 0 {
        0
    } else {
        size_with_piece(size_with_pieces(lens.drop_last()), lens.last(), true)
    }
}

/// An upload that is written without a failure is registered with the sum of
/// the lengths of its pieces.
pub proof fn law_upload_size_is_the_sum(lens: Seq<u64>)
    requires
        total(lens) <= u64::MAX,
    ensures
        size_with_pieces(lens) == total(lens),
        registered_size(size_with_pieces(lens), true) == Some(total(lens) as u64),
    decreases lens.len(),
{
    if lens.len() > 0 {
        law_upload_size_is_the_sum(lens.drop_last());
    }
}

/// A reading of the counters.
#[derive(Clone, Copy, PartialEq, Eq, Structural, Debug)]
pub struct Reading {
    /// The bytes received.
    pub up: u64,
    /// The bytes sent.
    pub down: u64,
}

/// The counters at the last reading.
#[derive(Debug)]
pub struct TrafficMeter {
    last: Reading,
}

impl TrafficMeter {
    /// The last reading.
    pub closed spec fn last(&self) -> Reading {
        self.last
    }

    /// A meter for counters that stand at zero.
    pub fn new() -> (meter: TrafficMeter)
        ensures
            meter.last() == (Reading { up: 0, down: 0 }),
    {
        TrafficMeter { last: Reading { up: 0, down: 0 } }
    }

    /// Takes a reading, and gives what was received and sent since the last.
    pub fn sample(&mut self, reading: Reading) -> (since: Reading)
        requires
            old(self).last().up <= reading.up,
            old(self).last().down <= reading.down,
        ensures
            final(self).last() == reading,
            since.up == moved(old(self).last().up, reading.up),
            since.down == moved(old(self).last().down, reading.down),
    {
        let since = Reading {
            up: reading.up - self.last.up,
            down: reading.down - self.last.down,
        };
        self.last = reading;
        since
    }
}

/// What moved between two readings of one counter.
pub open spec fn moved(before: u64, after: u64) -> int {
    after - before
}

/// All that moved between the readings `readings` of a counter, from one to the
/// next.
pub open spec fn moved_in_all(readings: Seq<u64>) -> int
    decreases readings.len(),
{
    if readings.len() < 2 {
        0
    } else {
        moved_in_all(readings.drop_last()) + moved(
            readings[readings.len() - 2],
            readings[readings.len() - 1],
        )
    }
}

/// What moves between one reading and the next adds up to what moved between
/// the first and the last: nothing is counted twice, and nothing is missed.
pub proof fn law_traffic_adds_up(readings: Seq<u64>)
    requires
        readings.len() > 0,
    ensures
        moved_in_all(readings) == moved(readings[0], readings[readings.len() - 1]),
    decreases readings.len(),
{
    if readings.len() >= 2 {
        law_traffic_adds_up(readings.drop_last());
    }
}

} // verus!
