//! The numbers of the report's columns: memory in megabytes and shares of
//! the system's memory in percent, both in hundredths, so that they are
//! whole numbers and exact.
//!
//! A share is taken of the machine's physical memory, whatever the rows of
//! the report hold together.

use vstd::prelude::*;
use vstd::arithmetic::div_mod::{lemma_div_is_ordered, lemma_fundamental_div_mod, lemma_mod_bound};
use crate::procfs::{memtotal_of, parse_memtotal_kb};

verus! {

/// `numerator / divisor` as the nearest whole number; halfway between two,
/// the even one.
pub open spec fn rounded_quotient(numerator: nat, divisor: nat) -> nat {
    let quotient = numerator / divisor;
    let rest = numerator % divisor;
    if 2 * rest > divisor || (2 * rest == divisor && quotient % 2 == 1) {
        quotient + 1
    } else {
        quotient
    }
}

/// A larger numerator never gives a smaller rounded quotient.
pub proof fn lemma_rounded_quotient_grows(a: nat, b: nat, divisor: nat)
    requires
        a <= b,
        divisor > 0,
    ensures
        rounded_quotient(a, divisor) <= rounded_quotient(b, divisor),
{
    let d = divisor as int;
    lemma_div_is_ordered(a as int, b as int, d);
    lemma_fundamental_div_mod(a as int, d);
    lemma_fundamental_div_mod(b as int, d);
    lemma_mod_bound(a as int, d);
    lemma_mod_bound(b as int, d);
}

/// Kilobytes in hundredths of a megabyte.
pub open spec fn megabyte_hundredths(kb: nat) -> nat {
    rounded_quotient(kb * 100, 1024)
}

/// The share that `kb` is of `total_kb`, in hundredths of a percent.
pub open spec fn percent_hundredths(kb: nat, total_kb: nat) -> nat {
    rounded_quotient(kb * 10000, total_kb)
}

/// More memory is never shown as a smaller share.
pub proof fn lemma_percent_grows(a_kb: nat, b_kb: nat, total_kb: nat)
    requires
        a_kb <= b_kb,
        total_kb > 0,
    ensures
        percent_hundredths(a_kb, total_kb) <= percent_hundredths(b_kb, total_kb),
{
    lemma_rounded_quotient_grows(a_kb * 10000, b_kb * 10000, total_kb);
}

/// The rounded quotient of numbers that leave room for it.
fn round_quotient(numerator: u128, divisor: u64) -> (rounded: u128)
    requires
        divisor > 0,
        numerator < u128::MAX,
    ensures
        rounded == rounded_quotient(numerator as nat, divisor as nat),
{
    let wide: u128 = divisor as u128;
    let quotient = numerator / wide;
    let rest = numerator % wide;
    if 2 * rest > wide || (2 * rest == wide && quotient % 2 == 1) {
        quotient + 1
    } else {
        quotient
    }
}

/// Converts kilobytes to hundredths of a megabyte.
pub fn to_megabyte_hundredths(kb: u64) -> (hundredths: u64)
    ensures
        hundredths == megabyte_hundredths(kb as nat),
{
    let numerator: u128 = kb as u128 * 100;
    let rounded = round_quotient(numerator, 1024);
    proof {
        lemma_fundamental_div_mod(numerator as int, 1024);
        lemma_mod_bound(numerator as int, 1024);
    }
    rounded as u64
}

/// The physical memory of the machine, in kilobytes: the whole of which the
/// report's percentages are shares. It is never zero.
#[derive(Debug)]
pub struct SystemMemoryTotal {
    kb: u64,
}

impl View for SystemMemoryTotal {
    type V = u64;

    closed spec fn view(&self) -> u64 {
        self.kb
    }
}

impl SystemMemoryTotal {
    #[verifier::type_invariant]
    spec fn positive(self) -> bool {
        self.kb > 0
    }

    /// A total of `kb` kilobytes, unless that is zero.
    pub fn new(kb: u64) -> (total: Option<SystemMemoryTotal>)
        ensures
            match total {
                Some(made) => made@ == kb && kb > 0,
                None => kb == 0,
            },
    {
        if kb == 0 {
            None
        } else {
            Some(SystemMemoryTotal { kb })
        }
    }

    /// The total that the lines of the memory statistics report, unless
    /// they report none that can be read, or zero.
    pub fn from_meminfo(lines: &[String]) -> (total: Option<SystemMemoryTotal>)
        ensures
            match total {
                Some(made) => memtotal_of(lines.deep_view()) == Some(made@) && made@ > 0,
                None => memtotal_of(lines.deep_view()) is None || memtotal_of(lines.deep_view())
                    == Some(0u64),
            },
    {
        match parse_memtotal_kb(lines) {
            Some(kb) => SystemMemoryTotal::new(kb),
            None => None,
        }
    }

    /// The total in kilobytes.
    pub fn kb(&self) -> (kb: u64)
        ensures
            kb == self@,
            kb > 0,
    {
        proof {
            use_type_invariant(self);
        }
        self.kb
    }

    /// The share that `kb` is of the total, in hundredths of a percent.
    pub fn percent_hundredths_of(&self, kb: u64) -> (hundredths: u128)
        ensures
            hundredths == percent_hundredths(kb as nat, self@ as nat),
    {
        proof {
            use_type_invariant(self);
        }
        round_quotient(kb as u128 * 10000, self.kb)
    }
}

} // verus!
