//! The power profile that the operating system is in.

use vstd::prelude::*;

use crate::text;

verus! {

#[derive(Clone, Copy, Debug, Eq, PartialEq, Structural)]
pub enum PowerProfile {
    Efficiency,
    Balanced,
    Performance,
}

impl PowerProfile {
    pub open spec fn name(self) -> Seq<char> {
        match self {
            PowerProfile::Efficiency => "efficiency"@,
            PowerProfile::Balanced => "balanced"@,
            PowerProfile::Performance => "performance"@,
        }
    }

    pub open spec fn code(self) -> u8 {
        match self {
            PowerProfile::Efficiency => 0,
            PowerProfile::Balanced => 1,
            PowerProfile::Performance => 2,
        }
    }

    pub fn as_str(&self) -> (name: &'static str)
        ensures
            name@ == self.name(),
    {
        match self {
            PowerProfile::Efficiency => "efficiency",
            PowerProfile::Balanced => "balanced",
            PowerProfile::Performance => "performance",
        }
    }

    pub fn to_u8(self) -> (code: u8)
        ensures
            code == self.code(),
    {
        match self {
            PowerProfile::Efficiency => 0,
            PowerProfile::Balanced => 1,
            PowerProfile::Performance => 2,
        }
    }

    pub fn from_u8(value: u8) -> (profile: Option<Self>)
        ensures
            profile matches Some(profile) ==> profile.code() == value,
            profile is None <==> value > 2,
    {
        match value {
            0 => Some(PowerProfile::Efficiency),
            1 => Some(PowerProfile::Balanced),
            2 => Some(PowerProfile::Performance),
            _ => None,
        }
    }
}

/// A profile is known by its code.
pub proof fn law_profile_codes(a: PowerProfile, b: PowerProfile)
    ensures
        a.code() == b.code() <==> a == b,
        a.code() <= 2,
{
}

/// The effective power modes of Windows, by number.
pub fn map_mode_to_profile(mode: i32) -> (profile: Option<PowerProfile>)
    ensures
        profile == match mode {
            0 | 1 => Some(PowerProfile::Efficiency),
            2 => Some(PowerProfile::Balanced),
            3 | 4 | 5 | 6 => Some(PowerProfile::Performance),
            _ => None,
        },
{
    match mode {
        0 | 1 => Some(PowerProfile::Efficiency),
        2 => Some(PowerProfile::Balanced),
        3 | 4 | 5 | 6 => Some(PowerProfile::Performance),
        _ => None,
    }
}

/// The profiles of the Linux power profile service, by name.
pub open spec fn service_profile(name: Seq<char>) -> Option<PowerProfile> {
    if name == "power-saver"@ {
        Some(PowerProfile::Efficiency)
    } else if name == "balanced"@ {
        Some(PowerProfile::Balanced)
    } else if name == "performance"@ {
        Some(PowerProfile::Performance)
    } else {
        None
    }
}

pub fn map_service_profile(name: &str) -> (profile: Option<PowerProfile>)
    ensures
        profile == service_profile(name@),
{
    if text::same_text(name, "power-saver") {
        Some(PowerProfile::Efficiency)
    } else if text::same_text(name, "balanced") {
        Some(PowerProfile::Balanced)
    } else if text::same_text(name, "performance") {
        Some(PowerProfile::Performance)
    } else {
        None
    }
}

/// Makes `profile` the active one and tells whether that changed anything.
pub fn store_active_profile(active_profile: &mut PowerProfile, profile: PowerProfile) -> (changed:
    bool)
    ensures
        *final(active_profile) == profile,
        changed == (*old(active_profile) != profile),
{
    if *active_profile == profile {
        return false;
    }
    *active_profile = profile;
    true
}

pub fn load_active_profile(active_profile: &PowerProfile) -> (profile: PowerProfile)
    ensures
        profile == *active_profile,
{
    *active_profile
}

} // verus!
