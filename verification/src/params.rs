//! Argon2 hashing parameters.

use vstd::prelude::*;

use argon2::Error as Argon2Error;

use crate::constants;

verus! {

/// `argon2::Params`, carried through unchanged.
#[verifier::external_type_specification]
#[verifier::external_body]
pub struct ExArgon2Params(argon2::Params);

/// `argon2::Error`, carried through unchanged.
#[verifier::external_type_specification]
#[verifier::external_body]
pub struct ExArgon2Error(Argon2Error);

/// The values that `argon2::Params::new` accepts (with no output length):
/// memory at least 8 KiB and at least 8 KiB per lane, at least one
/// iteration, and 1 to 0xFFFFFF lanes.
pub open spec fn argon2_params_valid(m_cost: u32, t_cost: u32, p_cost: u32) -> bool {
    &&& m_cost >= 8
    &&& m_cost >= 8 * p_cost
    &&& t_cost >= 1
    &&& 1 <= p_cost <= 0xFFFFFF
}

/// The memory, time and parallelism costs an `argon2::Params` holds.
pub uninterp spec fn argon2_costs(p: argon2::Params) -> (u32, u32, u32);

/// Calls `argon2::Params::new(m_cost, t_cost, p_cost, None)`, which accepts
/// exactly the values of `argon2_params_valid` and then holds those costs.
/// It computes `p_cost * 8` in `u32`, which overflows (and panics with
/// overflow checks) above `u32::MAX / 8`; that input is left out.
#[verifier::external_body]
fn argon2_params_new(m_cost: u32, t_cost: u32, p_cost: u32) -> (r: Result<
    argon2::Params,
    Argon2Error,
>)
    requires
        p_cost <= 0x1FFF_FFFF,
    ensures
        r.is_ok() == argon2_params_valid(m_cost, t_cost, p_cost),
        r matches Ok(p) ==> argon2_costs(p) == (m_cost, t_cost, p_cost),
{
    argon2::Params::new(m_cost, t_cost, p_cost, None)
}

/// The `argon2::Error::ThreadsTooMany` value, which `argon2::Params::new`
/// gives for more than 0xFFFFFF lanes when its memory check passes.
#[verifier::external_body]
fn too_many_lanes() -> Argon2Error {
    argon2::Error::ThreadsTooMany
}

/// Calls the `Display` impl of `argon2::Error`; nothing is stated of the text.
#[verifier::external_body]
pub(crate) fn argon2_error_text(e: &Argon2Error) -> String {
    format!("{e}")
}

/// `Argon2id` hashing parameters.
#[derive(Debug, Clone, PartialEq, Eq, Structural)]
pub struct Argon2Params {
    pub m_cost: u32,
    pub t_cost: u32,
    pub p_cost: u32,
}

impl Argon2Params {
    /// Parameters with the given memory (KiB), time and parallelism costs.
    pub fn new(m_cost: u32, t_cost: u32, p_cost: u32) -> (p: Self)
        ensures
            p == (Argon2Params { m_cost, t_cost, p_cost }),
    {
        Self { m_cost, t_cost, p_cost }
    }

    /// Fast parameters for tests only.
    pub fn test_fast() -> (p: Self)
        ensures
            p == (Argon2Params { m_cost: 256, t_cost: 1, p_cost: 1 }),
    {
        Self { m_cost: 256, t_cost: 1, p_cost: 1 }
    }

    /// The `argon2::Params` of these values; an error when argon2 rejects
    /// them. Above 0x1FFFFFFF lanes, where argon2's own memory check would
    /// overflow, they are rejected as too many lanes without asking argon2.
    pub fn to_argon2_params(&self) -> (r: Result<argon2::Params, Argon2Error>)
        ensures
            r.is_ok() == argon2_params_valid(self.m_cost, self.t_cost, self.p_cost),
            r matches Ok(p) ==> argon2_costs(p) == (self.m_cost, self.t_cost, self.p_cost),
    {
        if self.p_cost > 0x1FFF_FFFF {
            return Err(too_many_lanes());
        }
        argon2_params_new(self.m_cost, self.t_cost, self.p_cost)
    }
}

impl Default for Argon2Params {
    /// The recommended defaults: 19 MiB of memory, 2 iterations, 1 lane.
    fn default() -> (p: Self)
        ensures
            p == (Argon2Params {
                m_cost: constants::DEFAULT_ARGON2_MEMORY_COST,
                t_cost: constants::DEFAULT_ARGON2_TIME_COST,
                p_cost: constants::DEFAULT_ARGON2_PARALLELISM,
            }),
    {
        Self {
            m_cost: constants::DEFAULT_ARGON2_MEMORY_COST,
            t_cost: constants::DEFAULT_ARGON2_TIME_COST,
            p_cost: constants::DEFAULT_ARGON2_PARALLELISM,
        }
    }
}

} // verus!
