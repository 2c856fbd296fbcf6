use vstd::prelude::*;

verus! {

/// The whole seconds elapsed after `ts` ticks of `numer / denom` seconds each,
/// wrapped to 64 bits.
pub open spec fn seconds_of(numer: u32, denom: u32, ts: u64) -> int {
    ((ts as int) * (numer as int) / (denom as int)) % 0x1_0000_0000_0000_0000
}

/// `symphonia::core::units::TimeBase::calc_time`, seconds part.
///
/// The crate documents the conversion as accurate, with the seconds wrapping
/// on overflow; its source computes the integer quotient of `ts * numer` by
/// `denom` (exactly, through an `f64` division when the dividend is below 2^52,
/// and through `u128` division otherwise) and truncates it to `u64`. It
/// asserts that neither term of the base is zero.
#[verifier::external_body]
fn symphonia_calc_seconds(numer: u32, denom: u32, ts: u64) -> (seconds: u64)
    requires
        numer > 0,
        denom > 0,
    ensures
        seconds == seconds_of(numer, denom, ts),
{
    symphonia::core::units::TimeBase { numer, denom }.calc_time(ts).seconds
}

/// The length of one tick of a media stream: `numer / denom` seconds.
pub struct TimeBase {
    numer: u32,
    denom: u32,
}

impl TimeBase {
    pub closed spec fn numer(self) -> u32 {
        self.numer
    }

    pub closed spec fn denom(self) -> u32 {
        self.denom
    }

    #[verifier::type_invariant]
    spec fn well_formed(self) -> bool {
        self.numer > 0 && self.denom > 0
    }

    /// A time base of `numer / denom` seconds per tick; neither may be zero.
    pub fn new(numer: u32, denom: u32) -> (tb: TimeBase)
        requires
            numer > 0,
            denom > 0,
        ensures
            tb.numer() == numer,
            tb.denom() == denom,
    {
        TimeBase { numer, denom }
    }

    /// Whole seconds at timestamp `ts`.
    pub fn seconds_at(&self, ts: u64) -> (seconds: u64)
        ensures
            seconds == seconds_of(self.numer(), self.denom(), ts),
    {
        proof {
            use_type_invariant(self);
        }
        symphonia_calc_seconds(self.numer, self.denom, ts)
    }
}

} // verus!
