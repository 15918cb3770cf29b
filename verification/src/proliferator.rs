use vstd::prelude::*;

verus! {

/// The three tiers of proliferator spray, each with its own item id,
/// points-per-spray level, and durability table.
#[derive(Debug, Clone, PartialEq, Eq, Structural)]
pub enum Proliferator {
    MK1,
    MK2,
    MK3,
}

/// Highest meaningful proliferation level; higher requests are clamped.
pub const INC_LEVEL_MAX: u8 = 10;

/// Extra-products bonus at a given level, in thousandths.
/// `increase_milli(l) == 1000 + bonus` means a factor of `(1000 + bonus) / 1000`.
pub open spec fn spec_increase_milli(level: u8) -> u64 {
    let l = spec_clamp_inc_level(level);
    if l == 0 { 1000 }
    else if l == 1 { 1125 }
    else if l == 2 { 1200 }
    else if l == 3 { 1225 }
    else if l == 4 { 1250 }
    else if l == 5 { 1275 }
    else if l == 6 { 1300 }
    else if l == 7 { 1325 }
    else if l == 8 { 1350 }
    else if l == 9 { 1375 }
    else { 1400 }
}

pub open spec fn spec_clamp_inc_level(level: u8) -> u8 {
    if level < INC_LEVEL_MAX { level } else { INC_LEVEL_MAX }
}

impl Proliferator {
    pub const MAX_INC_LEVEL: u8 = 4;

    /// Durability base: how many sprays one item of this tier holds at level 0
    /// scaled by the extra-products factor at `level`.
    pub open spec fn spec_life_base(&self) -> u64 {
        match self {
            Proliferator::MK1 => 12,
            Proliferator::MK2 => 24,
            Proliferator::MK3 => 60,
        }
    }

    /// Catalog item id of this proliferator tier.
    pub fn item_id(&self) -> (r: i16)
        ensures
            self is MK1 ==> r == 1141,
            self is MK2 ==> r == 1142,
            self is MK3 ==> r == 1143,
    {
        match self {
            Proliferator::MK1 => 1141,
            Proliferator::MK2 => 1142,
            Proliferator::MK3 => 1143,
        }
    }

    /// Proliferation points added per spray by this tier.
    pub fn inc_level(&self) -> (r: u8)
        ensures
            self is MK1 ==> r == 1,
            self is MK2 ==> r == 2,
            self is MK3 ==> r == 4,
    {
        match self {
            Proliferator::MK1 => 1,
            Proliferator::MK2 => 2,
            Proliferator::MK3 => 4,
        }
    }

    /// Number of sprays one item of this tier performs when itself
    /// proliferated at `level`: the base count scaled by the
    /// extra-products factor, truncated to a whole number.
    pub fn life(&self, level: u8) -> (r: u8)
        ensures
            r == spec_increase_milli(level) * self.spec_life_base() / 1000,
    {
        let base: u64 = match self {
            Proliferator::MK1 => 12,
            Proliferator::MK2 => 24,
            Proliferator::MK3 => 60,
        };
        let m = Self::increase_milli(level);
        (m * base / 1000) as u8
    }

    pub fn clamp_inc_level(level: u8) -> (r: u8)
        ensures
            r == spec_clamp_inc_level(level),
    {
        if level < INC_LEVEL_MAX {
            level
        } else {
            INC_LEVEL_MAX
        }
    }

    /// Extra-products factor at `level`, in thousandths (1000 = no bonus).
    pub fn increase_milli(level: u8) -> (r: u64)
        ensures
            r == spec_increase_milli(level),
    {
        let l = Self::clamp_inc_level(level);
        if l == 0 { 1000 }
        else if l == 1 { 1125 }
        else if l == 2 { 1200 }
        else if l == 3 { 1225 }
        else if l == 4 { 1250 }
        else if l == 5 { 1275 }
        else if l == 6 { 1300 }
        else if l == 7 { 1325 }
        else if l == 8 { 1350 }
        else if l == 9 { 1375 }
        else { 1400 }
    }

    /// Production-speed factor at `level`, in thousandths (1000 = no bonus).
    pub fn accelerate_milli(level: u8) -> (r: u64)
        ensures
            r == 1000 + 250 * spec_clamp_inc_level(level),
    {
        let l = Self::clamp_inc_level(level);
        1000 + 250 * (l as u64)
    }

    /// Power-consumption factor at `level`, in thousandths (1000 = no bonus).
    pub fn power_milli(level: u8) -> (r: u64)
        ensures
            level == 0 ==> r == 1000,
            r == 1000 + 400 * spec_clamp_inc_level(level) - (if spec_clamp_inc_level(level) > 0 { 100int } else { 0int }),
    {
        let l = Self::clamp_inc_level(level);
        if l == 0 {
            1000
        } else {
            900 + 400 * (l as u64)
        }
    }
}

} // verus!
