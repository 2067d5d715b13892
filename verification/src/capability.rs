//! Runtime capabilities and the structural satisfaction check.
//!
//! A capability is a named requirement on the shape of a target runtime: that
//! it exposes an account identifier, a balance numeric type, or contract
//! hosting. A call family is bound to the capability set it requires, and a
//! call may only be built against a runtime description that declares every
//! required capability. Capabilities combine conjunctively and are checked by
//! structural comparison of descriptor values, never by name of the runtime.

use vstd::prelude::*;

verus! {

/// A named marker asserting that a target runtime exposes a given shape.
#[derive(Clone, Copy, Debug, PartialEq, Eq, Structural)]
pub enum RuntimeCapability {
    /// The runtime exposes accounts identified by 32-byte identifiers.
    System,
    /// The runtime exposes balances as an unsigned 128-bit numeric type.
    Balances,
    /// The runtime hosts stored code and contract accounts.
    Contracts,
}

/// A set of capabilities, one membership flag per named capability.
#[derive(Clone, Copy, Debug, PartialEq, Eq, Structural)]
pub struct CapabilitySet {
    pub system: bool,
    pub balances: bool,
    pub contracts: bool,
}

impl CapabilitySet {
    /// Whether `c` is a member of this set.
    pub open spec fn spec_contains(self, c: RuntimeCapability) -> bool {
        match c {
            RuntimeCapability::System => self.system,
            RuntimeCapability::Balances => self.balances,
            RuntimeCapability::Contracts => self.contracts,
        }
    }

    /// Whether every member of this set is a member of `other`.
    pub open spec fn spec_subset_of(self, other: CapabilitySet) -> bool {
        &&& (self.system ==> other.system)
        &&& (self.balances ==> other.balances)
        &&& (self.contracts ==> other.contracts)
    }

    /// The first capability, in the fixed order `System`, `Balances`,
    /// `Contracts`, that this set requires but `other` does not declare.
    /// Meaningful only when `!self.spec_subset_of(other)`.
    pub open spec fn spec_first_missing_in(self, other: CapabilitySet) -> RuntimeCapability {
        if self.system && !other.system {
            RuntimeCapability::System
        } else if self.balances && !other.balances {
            RuntimeCapability::Balances
        } else {
            RuntimeCapability::Contracts
        }
    }

    /// The empty capability set.
    pub fn empty() -> (s: CapabilitySet)
        ensures
            !s.system && !s.balances && !s.contracts,
    {
        CapabilitySet { system: false, balances: false, contracts: false }
    }

    pub fn contains(&self, c: RuntimeCapability) -> (r: bool)
        ensures
            r == self.spec_contains(c),
    {
        match c {
            RuntimeCapability::System => self.system,
            RuntimeCapability::Balances => self.balances,
            RuntimeCapability::Contracts => self.contracts,
        }
    }

    pub fn is_subset_of(&self, other: &CapabilitySet) -> (r: bool)
        ensures
            r == self.spec_subset_of(*other),
    {
        (!self.system || other.system) && (!self.balances || other.balances) && (!self.contracts
            || other.contracts)
    }

    /// The first required capability that `other` lacks, in the fixed order
    /// `System`, `Balances`, `Contracts`.
    pub fn first_missing_in(&self, other: &CapabilitySet) -> (r: RuntimeCapability)
        requires
            !self.spec_subset_of(*other),
        ensures
            r == self.spec_first_missing_in(*other),
            self.spec_contains(r) && !other.spec_contains(r),
    {
        if self.system && !other.system {
            RuntimeCapability::System
        } else if self.balances && !other.balances {
            RuntimeCapability::Balances
        } else {
            RuntimeCapability::Contracts
        }
    }
}

/// Membership in a subset is membership in the superset: the law that makes
/// the three flag-wise implications of `spec_subset_of` agree with the
/// element-wise reading of set inclusion.
pub proof fn lemma_subset_is_elementwise(a: CapabilitySet, b: CapabilitySet)
    ensures
        a.spec_subset_of(b) <==> (forall|c: RuntimeCapability|
            a.spec_contains(c) ==> b.spec_contains(c)),
{
    if forall|c: RuntimeCapability| a.spec_contains(c) ==> b.spec_contains(c) {
        assert(a.spec_contains(RuntimeCapability::System) ==> b.spec_contains(
            RuntimeCapability::System,
        ));
        assert(a.spec_contains(RuntimeCapability::Balances) ==> b.spec_contains(
            RuntimeCapability::Balances,
        ));
        assert(a.spec_contains(RuntimeCapability::Contracts) ==> b.spec_contains(
            RuntimeCapability::Contracts,
        ));
    }
}

/// An explicit description of a target runtime, resolved once at setup: the
/// capability set it declares. The concrete account-identifier, balance and
/// hash types a declared capability stands for are the library's fixed
/// choices ([`crate::calls::AccountId`], [`crate::calls::Balance`],
/// [`crate::calls::Hash`]); any runtime whose shapes match qualifies,
/// regardless of its name.
#[derive(Clone, Copy, Debug, PartialEq, Eq, Structural)]
pub struct RuntimeDescription {
    pub capabilities: CapabilitySet,
}

/// The subset of a runtime description that the contracts call family reads:
/// the capability set the runtime declares. `RuntimeDescription` implements
/// it; a caller with a richer runtime-description type of its own may
/// implement it as well.
pub trait Contracts {
    /// The capability set this description declares.
    spec fn declared(&self) -> CapabilitySet;

    /// Report the declared capability set.
    fn declared_capabilities(&self) -> (c: CapabilitySet)
        ensures
            c == self.declared(),
    ;
}

impl Contracts for RuntimeDescription {
    open spec fn declared(&self) -> CapabilitySet {
        self.capabilities
    }

    fn declared_capabilities(&self) -> (c: CapabilitySet) {
        self.capabilities
    }
}

} // verus!
