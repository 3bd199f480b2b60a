//! A point in time together with the UTC offset it was observed in, packed
//! into one 64-bit word on the wire.
use vstd::prelude::*;

verus! {

/// Seconds since the Unix epoch and the offset from UTC in seconds, both as
/// signed 32-bit values.
#[derive(Clone, Copy, Debug, PartialEq, Eq, Structural)]
pub struct TsWithTz {
    pub ts: i32,
    pub tz: i32,
}

/// The packed word: the seconds in the upper half, the offset in the lower.
pub open spec fn pack(ts: i32, tz: i32) -> u64 {
    ((ts as u32 as u64) << 32u64) | (tz as u32 as u64)
}

/// The seconds that a packed word holds.
pub open spec fn unpack_ts(v: u64) -> i32 {
    (v >> 32u64) as u32 as i32
}

/// The offset that a packed word holds.
pub open spec fn unpack_tz(v: u64) -> i32 {
    v as u32 as i32
}

/// Packing and unpacking are inverse to each other in both directions.
pub proof fn lemma_pack_round_trip(ts: i32, tz: i32, v: u64)
    ensures
        unpack_ts(pack(ts, tz)) == ts,
        unpack_tz(pack(ts, tz)) == tz,
        pack(unpack_ts(v), unpack_tz(v)) == v,
{
    assert((((((ts as u32 as u64) << 32u64) | (tz as u32 as u64)) >> 32u64) as u32 as i32) == ts)
        by (bit_vector);
    assert(((((ts as u32 as u64) << 32u64) | (tz as u32 as u64)) as u32 as i32) == tz)
        by (bit_vector);
    assert(((((v >> 32u64) as u32 as i32) as u32 as u64) << 32u64) | ((v as u32 as i32) as u32
        as u64) == v) by (bit_vector);
}

/// Relies on chrono::Local::now: the current time in seconds since the epoch
/// and the local offset from UTC, which chrono keeps within one day.
#[verifier::external_body]
fn local_now() -> (r: (i64, i32))
    ensures
        -86400 < r.1 < 86400,
{
    let now = chrono::Local::now();
    (now.timestamp(), now.offset().local_minus_utc())
}

impl TsWithTz {
    /// The current time in the local time zone; the seconds are cut to 32 bits.
    pub fn now() -> (r: TsWithTz)
        ensures
            -86400 < r.tz < 86400,
    {
        let (secs, tz) = local_now();
        TsWithTz::from_parts(secs, tz)
    }

    /// A timestamp of `secs` seconds since the epoch, cut to their low 32
    /// bits, and offset `tz`.
    pub fn from_parts(secs: i64, tz: i32) -> (r: TsWithTz)
        ensures
            r.ts == #[verifier::truncate] (secs as i32),
            r.tz == tz,
    {
        TsWithTz { ts: #[verifier::truncate] (secs as i32), tz }
    }

    pub fn to_u64(&self) -> (r: u64)
        ensures
            r == pack(self.ts, self.tz),
    {
        ((self.ts as u32 as u64) << 32u64) | (self.tz as u32 as u64)
    }

    pub fn from_u64(v: u64) -> (r: TsWithTz)
        ensures
            r.ts == unpack_ts(v),
            r.tz == unpack_tz(v),
            r.to_spec() == v,
    {
        proof {
            lemma_pack_round_trip(0, 0, v);
        }
        TsWithTz { ts: (v >> 32u64) as u32 as i32, tz: v as u32 as i32 }
    }

    /// The packed word of this value.
    pub open spec fn to_spec(self) -> u64 {
        pack(self.ts, self.tz)
    }
}

} // verus!
