use vstd::prelude::*;

verus! {

/// Largest byte count still reported in the byte unit.
pub const FOUR_DIGITS: u64 = 9999;
/// Largest byte count still reported in the kilobyte unit.
pub const SIX_DIGITS: u64 = 999999;
/// Largest byte count still reported in the megabyte unit.
pub const NINE_DIGITS: u64 = 999999999;

/// A byte count normalized into a human-scaled unit. Every variant carries the
/// exact underlying byte count; the scaled mantissa shown to the user (KB, MB,
/// GB with two decimals) is a display concern and is derived outside the
/// library. Equality and ordering always compare the underlying byte count,
/// never the unit tag.
#[derive(Debug, Clone, Copy)]
pub enum Unit {
    Byte(u64),
    KByte(u64),
    MByte(u64),
    GByte(u64),
}

/// The unit that the fixed-threshold classifier assigns to a byte count.
pub open spec fn spec_unit_of(size: u64) -> Unit {
    if size <= FOUR_DIGITS {
        Unit::Byte(size)
    } else if size <= SIX_DIGITS {
        Unit::KByte(size)
    } else if size <= NINE_DIGITS {
        Unit::MByte(size)
    } else {
        Unit::GByte(size)
    }
}

impl Unit {
    /// The underlying byte count, whatever the unit tag.
    pub open spec fn spec_bytes(self) -> u64 {
        match self {
            Unit::Byte(b) => b,
            Unit::KByte(b) => b,
            Unit::MByte(b) => b,
            Unit::GByte(b) => b,
        }
    }

    /// Classify a byte count into its display unit by the fixed thresholds:
    /// up to four digits stay bytes, up to six digits become kilobytes, up to
    /// nine digits megabytes, anything larger gigabytes.
    pub fn new(size: u64) -> (r: Unit)
        ensures
            r == spec_unit_of(size),
            r.spec_bytes() == size,
            size <= FOUR_DIGITS <==> r is Byte,
            FOUR_DIGITS < size <= SIX_DIGITS <==> r is KByte,
            SIX_DIGITS < size <= NINE_DIGITS <==> r is MByte,
            size > NINE_DIGITS <==> r is GByte,
    {
        if size <= FOUR_DIGITS {
            Unit::Byte(size)
        } else if size <= SIX_DIGITS {
            Unit::KByte(size)
        } else if size <= NINE_DIGITS {
            Unit::MByte(size)
        } else {
            Unit::GByte(size)
        }
    }

    /// The underlying byte count as an executable value.
    pub fn to_bytes(&self) -> (r: u64)
        ensures
            r == self.spec_bytes(),
    {
        match self {
            Unit::Byte(b) => *b,
            Unit::KByte(b) => *b,
            Unit::MByte(b) => *b,
            Unit::GByte(b) => *b,
        }
    }
}

impl PartialEq for Unit {
    fn eq(&self, other: &Self) -> (r: bool) {
        self.to_bytes() == other.to_bytes()
    }
}

impl Eq for Unit {}

impl vstd::std_specs::cmp::PartialEqSpecImpl for Unit {
    open spec fn obeys_eq_spec() -> bool {
        true
    }

    open spec fn eq_spec(&self, other: &Unit) -> bool {
        self.spec_bytes() == other.spec_bytes()
    }
}

impl PartialOrd for Unit {
    fn partial_cmp(&self, other: &Self) -> (r: Option<core::cmp::Ordering>) {
        let a = self.to_bytes();
        let b = other.to_bytes();
        if a < b {
            Some(core::cmp::Ordering::Less)
        } else if a == b {
            Some(core::cmp::Ordering::Equal)
        } else {
            Some(core::cmp::Ordering::Greater)
        }
    }
}

impl vstd::std_specs::cmp::PartialOrdSpecImpl for Unit {
    open spec fn obeys_partial_cmp_spec() -> bool {
        true
    }

    open spec fn partial_cmp_spec(&self, other: &Unit) -> Option<core::cmp::Ordering> {
        if self.spec_bytes() < other.spec_bytes() {
            Some(core::cmp::Ordering::Less)
        } else if self.spec_bytes() == other.spec_bytes() {
            Some(core::cmp::Ordering::Equal)
        } else {
            Some(core::cmp::Ordering::Greater)
        }
    }
}

} // verus!
