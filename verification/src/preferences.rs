//! The appearance preference: the stored scheme name, the choice shown, the
//! scheme applied.
use vstd::prelude::*;
use crate::text::same_text;

verus! {

/// The colour scheme that the application asks the style manager for.
#[derive(Debug, Clone, Copy, PartialEq, Eq, Structural)]
pub enum ColorScheme {
    /// Follow the system.
    Default,
    ForceLight,
    ForceDark,
}

/// The position of a stored scheme name among the choices System, Light, Dark:
/// "light" is 1, "dark" is 2, anything else is 0.
pub fn scheme_index(value: &str) -> (r: u32)
    ensures
        r == (if value@ == "light"@ { 1u32 } else if value@ == "dark"@ { 2u32 } else { 0u32 }),
{
    if same_text(value, "light") {
        1
    } else if same_text(value, "dark") {
        2
    } else {
        0
    }
}

/// The name stored for choice `index`: "system", "light" or "dark".
pub fn scheme_name(index: u32) -> (r: &'static str)
    requires
        index < 3,
    ensures
        r@ == (if index == 0 { "system"@ } else if index == 1 { "light"@ } else { "dark"@ }),
{
    if index == 0 {
        "system"
    } else if index == 1 {
        "light"
    } else {
        "dark"
    }
}

/// The scheme applied for a stored name: forced light, forced dark, or the system's.
pub fn color_scheme(value: &str) -> (r: ColorScheme)
    ensures
        r == (if value@ == "light"@ {
            ColorScheme::ForceLight
        } else if value@ == "dark"@ {
            ColorScheme::ForceDark
        } else {
            ColorScheme::Default
        }),
{
    if same_text(value, "light") {
        ColorScheme::ForceLight
    } else if same_text(value, "dark") {
        ColorScheme::ForceDark
    } else {
        ColorScheme::Default
    }
}

/// The choice shown for a stored name gives back that name, for the three names stored.
pub proof fn lemma_scheme_round_trip(index: u32)
    requires
        index < 3,
    ensures
        (if index == 0 { "system"@ } else if index == 1 { "light"@ } else { "dark"@ }) == "light"@
            <==> index == 1,
        (if index == 0 { "system"@ } else if index == 1 { "light"@ } else { "dark"@ }) == "dark"@
            <==> index == 2,
{
    reveal_strlit("system");
    reveal_strlit("light");
    reveal_strlit("dark");
    assert("system"@ != "light"@) by {
        assert("system"@[0] != "light"@[0]);
    }
    assert("system"@ != "dark"@) by {
        assert("system"@[0] != "dark"@[0]);
    }
    assert("light"@ != "dark"@) by {
        assert("light"@[0] != "dark"@[0]);
    }
}

} // verus!
