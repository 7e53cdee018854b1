use vstd::prelude::*;

use crate::header::append_bytes;

verus! {

/// Base used for the temporary file when the destination has no file name.
pub const DEFAULT_TEMP_BASE: [u8; 16] = [
    0x73, 0x65, 0x61, 0x6c, 0x76, 0x61, 0x75, 0x6c, 0x74, 0x2d, 0x6f, 0x75, 0x74, 0x70, 0x75, 0x74,
];

/// ".tmp-" between the base name and the unique part.
pub const TEMP_MARK: [u8; 5] = [0x2e, 0x74, 0x6d, 0x70, 0x2d];

/// The decimal digits of `n`, most significant first.
pub open spec fn decimal(n: nat) -> Seq<u8>
    decreases n,
{
    if n < 10 {
        seq![(48 + n) as u8]
    } else {
        decimal(n / 10).push((48 + n % 10) as u8)
    }
}

/// The name of the temporary file written before it replaces the
/// destination: ".{base}.tmp-{pid}-{timestamp}-{counter}".
pub open spec fn temp_name(base: Seq<u8>, pid: u32, timestamp: u128, counter: u64) -> Seq<u8> {
    seq![0x2eu8] + base + seq![0x2eu8, 0x74u8, 0x6du8, 0x70u8, 0x2du8] + decimal(pid as nat) + seq![0x2du8]
        + decimal(timestamp as nat) + seq![0x2du8] + decimal(counter as nat)
}

/// Appends the decimal digits of `n`.
pub fn push_decimal(out: &mut Vec<u8>, n: u128)
    ensures
        final(out)@ == old(out)@ + decimal(n as nat),
    decreases n,
{
    if n >= 10 {
        push_decimal(out, n / 10);
    }
    out.push((48 + n % 10) as u8);
    assert(final(out)@ =~= old(out)@ + decimal(n as nat));
}

/// Hands out temporary-file names; its counter keeps names apart within one
/// process, the process id and time across processes.
pub struct TempNameCounter {
    next: u64,
}

impl TempNameCounter {
    pub closed spec fn counter(&self) -> u64 {
        self.next
    }

    pub fn new() -> (r: TempNameCounter)
        ensures
            r.counter() == 0,
    {
        TempNameCounter { next: 0 }
    }

    /// The next temporary name for a destination file name; an empty file
    /// name is replaced by "sealvault-output". The counter then moves on by
    /// one, wrapping at the top of its range.
    pub fn next_name(&mut self, file_name: &[u8], pid: u32, timestamp: u128) -> (r: Vec<u8>)
        ensures
            r@ == temp_name(if file_name@.len() == 0 { DEFAULT_TEMP_BASE@ } else { file_name@ }, pid, timestamp, old(self).counter()),
            final(self).counter() == if old(self).counter() == u64::MAX { 0 } else { (old(self).counter() + 1) as u64 },
    {
        let counter = self.next;
        self.next = if self.next == u64::MAX { 0 } else { self.next + 1 };
        let mut out: Vec<u8> = Vec::new();
        out.push(0x2e);
        if file_name.len() == 0 {
            append_bytes(&mut out, &DEFAULT_TEMP_BASE);
        } else {
            append_bytes(&mut out, file_name);
        }
        append_bytes(&mut out, &TEMP_MARK);
        push_decimal(&mut out, pid as u128);
        out.push(0x2d);
        push_decimal(&mut out, timestamp);
        out.push(0x2d);
        push_decimal(&mut out, counter as u128);
        assert(TEMP_MARK@ =~= seq![0x2eu8, 0x74u8, 0x6du8, 0x70u8, 0x2du8]);
        assert(out@ =~= temp_name(if file_name@.len() == 0 { DEFAULT_TEMP_BASE@ } else { file_name@ }, pid, timestamp, counter));
        out
    }
}

} // verus!
