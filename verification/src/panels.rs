//! Texts of the dashboard's panels and the choice of its colour theme.

use vstd::prelude::*;
use vstd::string::StringExecFns;
use crate::chars::{chars_equal, to_chars};
use crate::logger::{decimal, push_decimal};

verus! {

/// Whether a terminal of `width` by `height` is smaller than the minimum.
pub fn is_too_small(width: u16, height: u16, min_w: u16, min_h: u16) -> (r: bool)
    ensures
        r == (width < min_w || height < min_h),
{
    width < min_w || height < min_h
}

/// The notice shown in a terminal that is too small.
pub fn too_small_message(min_w: u16, min_h: u16, width: u16, height: u16) -> (r: String)
    ensures
        r@ == "Need at least "@ + decimal(min_w as nat) + "x"@ + decimal(min_h as nat) + ", current "@
            + decimal(width as nat) + "x"@ + decimal(height as nat) + "."@,
{
    let mut s = String::from_str("Need at least ");
    push_decimal(&mut s, min_w as u64);
    s.append("x");
    push_decimal(&mut s, min_h as u64);
    s.append(", current ");
    push_decimal(&mut s, width as u64);
    s.append("x");
    push_decimal(&mut s, height as u64);
    s.append(".");
    s
}

/// The values shown in the global preferences panel.
#[derive(Clone, Debug, PartialEq, Eq)]
pub struct PrefsText {
    pub active: String,
    pub timeout: String,
    pub prevent_sleep: String,
    pub cycle_time: String,
    pub hide_stock: String,
}

/// The preference values as the panel shows them: the screensaver state,
/// the timeout in whole minutes, the sleep prevention state, the cycle
/// interval in seconds and whether stock screensavers are hidden.
pub fn prefs_text(active: bool, timeout_secs: u32, prevent_sleep: bool, cycle_secs: u32, hide_stock: bool) -> (r: PrefsText)
    ensures
        r.active@ == if active { "ACTIVE"@ } else { "DISABLED"@ },
        r.timeout@ == decimal((timeout_secs / 60) as nat) + " minutes"@,
        r.prevent_sleep@ == if prevent_sleep { "ACTIVE (SYSTEM AWAKE)"@ } else { "DISABLED (NORMAL)"@ },
        r.cycle_time@ == decimal(cycle_secs as nat) + " seconds"@,
        r.hide_stock@ == if hide_stock { "YES"@ } else { "NO"@ },
{
    let mut timeout = String::new();
    push_decimal(&mut timeout, (timeout_secs / 60) as u64);
    timeout.append(" minutes");
    let mut cycle = String::new();
    push_decimal(&mut cycle, cycle_secs as u64);
    cycle.append(" seconds");
    assert(timeout@ =~= decimal((timeout_secs / 60) as nat) + " minutes"@);
    assert(cycle@ =~= decimal(cycle_secs as nat) + " seconds"@);
    PrefsText {
        active: String::from_str(if active { "ACTIVE" } else { "DISABLED" }),
        timeout,
        prevent_sleep: String::from_str(if prevent_sleep { "ACTIVE (SYSTEM AWAKE)" } else { "DISABLED (NORMAL)" }),
        cycle_time: cycle,
        hide_stock: String::from_str(if hide_stock { "YES" } else { "NO" }),
    }
}

/// A colour theme the dashboard can be forced into.
#[derive(Clone, Copy, Debug, PartialEq, Eq, Structural)]
pub enum ThemeChoice {
    Dark,
    Light,
    HighContrast,
    NoColor,
}

/// The theme a `--theme` value names: "dark", "light", "high-contrast" or
/// "no-color"; any other value names none, and the theme is then detected.
pub open spec fn theme_named(name: Seq<char>) -> Option<ThemeChoice> {
    if name == "dark"@ {
        Some(ThemeChoice::Dark)
    } else if name == "light"@ {
        Some(ThemeChoice::Light)
    } else if name == "high-contrast"@ {
        Some(ThemeChoice::HighContrast)
    } else if name == "no-color"@ {
        Some(ThemeChoice::NoColor)
    } else {
        None
    }
}

/// The theme a `--theme` value names (see `theme_named`).
pub fn theme_override(name: &str) -> (r: Option<ThemeChoice>)
    ensures
        r == theme_named(name@),
{
    let v = to_chars(name);
    if chars_equal(v.as_slice(), to_chars("dark").as_slice()) {
        Some(ThemeChoice::Dark)
    } else if chars_equal(v.as_slice(), to_chars("light").as_slice()) {
        Some(ThemeChoice::Light)
    } else if chars_equal(v.as_slice(), to_chars("high-contrast").as_slice()) {
        Some(ThemeChoice::HighContrast)
    } else if chars_equal(v.as_slice(), to_chars("no-color").as_slice()) {
        Some(ThemeChoice::NoColor)
    } else {
        None
    }
}

} // verus!
