use vstd::prelude::*;

use crate::error::Error;

verus! {

/// The fee rule `constant + coefficient * size`.
#[derive(Debug, Clone, Copy, PartialEq, Eq, Structural)]
pub struct LinearFee {
    pub constant: u64,
    pub coefficient: u64,
}

/// The fee for `size` bytes, as an unbounded integer.
pub open spec fn fee_spec(constant: nat, coefficient: nat, size: nat) -> nat {
    constant + coefficient * size
}

impl LinearFee {
    pub fn new(coefficient: u64, constant: u64) -> (r: LinearFee)
        ensures
            r.coefficient == coefficient,
            r.constant == constant,
    {
        LinearFee { constant, coefficient }
    }

    pub fn constant(&self) -> (r: u64)
        ensures
            r == self.constant,
    {
        self.constant
    }

    pub fn coefficient(&self) -> (r: u64)
        ensures
            r == self.coefficient,
    {
        self.coefficient
    }

    /// The fee for a transaction of `size` bytes; `Overflow` when it does
    /// not fit in 64 bits.
    pub fn fee(&self, size: u64) -> (r: Result<u64, Error>)
        ensures
            fee_spec(self.constant as nat, self.coefficient as nat, size as nat) <= u64::MAX
                ==> r == Ok::<u64, Error>(
                fee_spec(self.constant as nat, self.coefficient as nat, size as nat) as u64,
            ),
            fee_spec(self.constant as nat, self.coefficient as nat, size as nat) > u64::MAX
                ==> r == Err::<u64, Error>(Error::Overflow),
    {
        match self.coefficient.checked_mul(size) {
            None => {
                proof {
                    assert(self.coefficient as nat * size as nat > u64::MAX);
                }
                Err(Error::Overflow)
            },
            Some(p) => match p.checked_add(self.constant) {
                None => Err(Error::Overflow),
                Some(f) => Ok(f),
            },
        }
    }
}

/// The fee never decreases as the size grows.
pub proof fn lemma_fee_monotone(constant: nat, coefficient: nat, a: nat, b: nat)
    requires
        a <= b,
    ensures
        fee_spec(constant, coefficient, a) <= fee_spec(constant, coefficient, b),
{
    assert(coefficient * a <= coefficient * b) by (nonlinear_arith)
        requires
            a <= b,
    ;
}

} // verus!
