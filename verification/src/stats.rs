//! Run statistics: counters accumulated over the whole run, and the integer
//! scaling that renders byte totals in the largest unit (1024-multiplied)
//! keeping the displayed magnitude at 1024 or below.

use vstd::prelude::*;

verus! {

pub const KILO: u64 = 1024;

pub const MEGA: u64 = 1024 * 1024;

pub const GIGA: u64 = 1024 * 1024 * 1024;

/// Addition that sticks at the counter ceiling instead of wrapping, so the
/// run counters never decrease.
pub open spec fn sat_add(a: u64, b: u64) -> u64 {
    if a + b > u64::MAX {
        u64::MAX
    } else {
        (a + b) as u64
    }
}

/// The counters kept across a run: files examined that led to a copy, the
/// new-copy and refresh-copy split, and the bytes those copies moved.
#[derive(Clone, Copy, PartialEq, Eq, Structural, Debug)]
pub struct SyncStats {
    pub files_copied: u64,
    pub new_copies: u64,
    pub refresh_copies: u64,
    pub bytes_copied: u64,
}

impl SyncStats {
    pub fn new() -> (s: SyncStats)
        ensures
            s.files_copied == 0,
            s.new_copies == 0,
            s.refresh_copies == 0,
            s.bytes_copied == 0,
    {
        SyncStats { files_copied: 0, new_copies: 0, refresh_copies: 0, bytes_copied: 0 }
    }

    /// Record one completed copy of a file that had no target counterpart.
    /// No counter ever decreases.
    pub fn record_new_copy(&mut self, bytes: u64)
        ensures
            final(self).files_copied == sat_add(old(self).files_copied, 1),
            final(self).new_copies == sat_add(old(self).new_copies, 1),
            final(self).refresh_copies == old(self).refresh_copies,
            final(self).bytes_copied == sat_add(old(self).bytes_copied, bytes),
            final(self).files_copied >= old(self).files_copied,
            final(self).new_copies >= old(self).new_copies,
            final(self).bytes_copied >= old(self).bytes_copied,
    {
        self.files_copied = saturating_inc(self.files_copied);
        self.new_copies = saturating_inc(self.new_copies);
        self.bytes_copied = saturating_plus(self.bytes_copied, bytes);
    }

    /// Record one completed copy over a stale target counterpart. No counter
    /// ever decreases.
    pub fn record_refresh_copy(&mut self, bytes: u64)
        ensures
            final(self).files_copied == sat_add(old(self).files_copied, 1),
            final(self).refresh_copies == sat_add(old(self).refresh_copies, 1),
            final(self).new_copies == old(self).new_copies,
            final(self).bytes_copied == sat_add(old(self).bytes_copied, bytes),
            final(self).files_copied >= old(self).files_copied,
            final(self).refresh_copies >= old(self).refresh_copies,
            final(self).bytes_copied >= old(self).bytes_copied,
    {
        self.files_copied = saturating_inc(self.files_copied);
        self.refresh_copies = saturating_inc(self.refresh_copies);
        self.bytes_copied = saturating_plus(self.bytes_copied, bytes);
    }
}

fn saturating_inc(a: u64) -> (r: u64)
    ensures
        r == sat_add(a, 1),
{
    if a == u64::MAX {
        a
    } else {
        a + 1
    }
}

fn saturating_plus(a: u64, b: u64) -> (r: u64)
    ensures
        r == sat_add(a, b),
{
    if a > u64::MAX - b {
        u64::MAX
    } else {
        a + b
    }
}

/// The unit a byte count is rendered in.
#[derive(Clone, Copy, PartialEq, Eq, Structural, Debug)]
pub enum ByteUnit {
    Bytes,
    KiloBytes,
    MegaBytes,
    GigaBytes,
}

/// The largest unit keeping the displayed magnitude at 1024 or below.
pub open spec fn spec_unit_for(v: u64) -> ByteUnit {
    if v <= KILO {
        ByteUnit::Bytes
    } else if v <= MEGA {
        ByteUnit::KiloBytes
    } else if v <= GIGA {
        ByteUnit::MegaBytes
    } else {
        ByteUnit::GigaBytes
    }
}

pub open spec fn spec_unit_divisor(u: ByteUnit) -> u64 {
    match u {
        ByteUnit::Bytes => 1,
        ByteUnit::KiloBytes => KILO,
        ByteUnit::MegaBytes => MEGA,
        ByteUnit::GigaBytes => GIGA,
    }
}

/// A byte count scaled for display: the chosen unit, the whole part in that
/// unit, and the first two decimal places (truncated).
#[derive(Clone, Copy, PartialEq, Eq, Structural, Debug)]
pub struct ScaledBytes {
    pub unit: ByteUnit,
    pub whole: u64,
    pub hundredths: u64,
}

/// Scale a byte count into the unit `spec_unit_for` picks for it.
pub fn scale_bytes(v: u64) -> (r: ScaledBytes)
    ensures
        r.unit == spec_unit_for(v),
        r.whole == v / spec_unit_divisor(r.unit),
        r.hundredths == ((v % spec_unit_divisor(r.unit)) as int) * 100 / (spec_unit_divisor(r.unit) as int),
        r.hundredths < 100,
{
    let divisor: u64 = if v <= KILO {
        1
    } else if v <= MEGA {
        KILO
    } else if v <= GIGA {
        MEGA
    } else {
        GIGA
    };
    let whole = v / divisor;
    let rem = v % divisor;
    proof {
        assert((rem as int) * 100 / (divisor as int) < 100) by (nonlinear_arith)
            requires
                0 < divisor,
                rem < divisor,
        ;
        assert((rem as int) * 100 <= (u64::MAX as int)) by (nonlinear_arith)
            requires
                rem < divisor,
                (divisor as int) <= 1024 * 1024 * 1024,
        ;
    }
    let hundredths = rem * 100 / divisor;
    ScaledBytes { unit: scale_unit_of(v), whole, hundredths }
}

fn scale_unit_of(v: u64) -> (u: ByteUnit)
    ensures
        u == spec_unit_for(v),
{
    if v <= KILO {
        ByteUnit::Bytes
    } else if v <= MEGA {
        ByteUnit::KiloBytes
    } else if v <= GIGA {
        ByteUnit::MegaBytes
    } else {
        ByteUnit::GigaBytes
    }
}

/// The end-of-run file-size figures: the copied total and the mean bytes per
/// copied file, each scaled for display.
#[derive(Clone, Copy, PartialEq, Eq, Structural, Debug)]
pub struct SizeSummary {
    pub total: ScaledBytes,
    pub mean: ScaledBytes,
}

/// The figures reported at run end. With zero copied files the file-size
/// statistics are omitted entirely and only the counters stand.
pub fn size_summary(stats: &SyncStats) -> (r: Option<SizeSummary>)
    ensures
        stats.files_copied == 0 <==> r is None,
        stats.files_copied > 0 ==> {
            let s = r->Some_0;
            &&& s.total.unit == spec_unit_for(stats.bytes_copied)
            &&& s.total.whole == stats.bytes_copied / spec_unit_divisor(s.total.unit)
            &&& s.mean.unit == spec_unit_for(stats.bytes_copied / stats.files_copied)
            &&& s.mean.whole == (stats.bytes_copied / stats.files_copied) / spec_unit_divisor(
                s.mean.unit,
            )
        },
{
    if stats.files_copied == 0 {
        None
    } else {
        let total = scale_bytes(stats.bytes_copied);
        let mean = scale_bytes(stats.bytes_copied / stats.files_copied);
        Some(SizeSummary { total, mean })
    }
}

} // verus!
