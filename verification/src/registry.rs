//! Screensaver settings as the Windows registry stores them: the catalog of
//! configurable screensavers, their fields, and the system screensaver
//! preferences.

use vstd::prelude::*;
use vstd::string::StringExecFns;
use crate::chars::{chars_equal, opt_chars, to_chars};
use crate::logger::{decimal, push_decimal};

verus! {

/// A configurable setting of a screensaver.
#[derive(Clone, Debug)]
pub enum ConfigField {
    Integer {
        name: &'static str,
        label: &'static str,
        min: i32,
        max: i32,
        default: i32,
        value: i32,
    },
    Boolean {
        name: &'static str,
        label: &'static str,
        default: bool,
        value: bool,
    },
}

/// A screensaver whose settings can be edited.
#[derive(Clone, Debug)]
pub struct ScreensaverConfig {
    pub name: &'static str,
    pub registry_name: &'static str,
    pub binary_name: &'static str,
    pub fields: Vec<ConfigField>,
}

/// The system screensaver preferences.
#[derive(Clone, Debug)]
pub struct GlobalConfig {
    /// Path of the active screensaver.
    pub active_scr: String,
    /// Whether the screensaver is enabled.
    pub active: bool,
    /// Idle seconds before the screensaver starts.
    pub timeout: u32,
}

/// Switches the system screensaver on or off, leaving the other settings.
pub fn toggle_active(config: &mut GlobalConfig)
    ensures
        final(config).active == !old(config).active,
        final(config).active_scr == old(config).active_scr,
        final(config).timeout == old(config).timeout,
{
    config.active = !config.active;
}

/// A field holds its default value, and an integer default lies between
/// the field's bounds.
pub open spec fn field_at_default(f: ConfigField) -> bool {
    match f {
        ConfigField::Integer { min, max, default, value, .. } => min <= default <= max && value == default,
        ConfigField::Boolean { default, value, .. } => value == default,
    }
}

fn int_field(name: &'static str, label: &'static str, min: i32, max: i32, default: i32) -> (f: ConfigField)
    requires
        min <= default <= max,
    ensures
        f == int_at(name, label, min, max, default),
        field_at_default(f),
{
    ConfigField::Integer { name, label, min, max, default, value: default }
}

/// An integer field at its default.
pub open spec fn int_at(name: &'static str, label: &'static str, min: i32, max: i32, default: i32) -> ConfigField {
    ConfigField::Integer { name, label, min, max, default, value: default }
}

/// The configurable screensavers: Omaxi Beams, Bounce, Matrix, Pour and
/// Vectors, each with its registry key name, its binary and its integer
/// settings, every setting at its default, which lies within its bounds.
pub fn get_screensavers() -> (r: Vec<ScreensaverConfig>)
    ensures
        r@.len() == 5,
        r@[0].name == "Omaxi Beams" && r@[0].registry_name == "OmaxiBeams" && r@[0].binary_name == "omaxi-beams.scr",
        r@[0].fields@ == seq![
            int_at("BeamCount", "Beam Count", 2, 8, 2),
            int_at("StarCount", "Star Count", 10, 150, 40),
            int_at("BeamSpeed", "Beam Speed", 10, 100, 35),
        ],
        r@[1].name == "Omaxi Bounce" && r@[1].registry_name == "OmaxiBounce" && r@[1].binary_name == "omaxi-bounce.scr",
        r@[1].fields@ == seq![
            int_at("BeamSpeed", "Bounce Speed", 10, 100, 35),
            int_at("StarCount", "Star Count", 10, 150, 40),
        ],
        r@[2].name == "Omaxi Matrix" && r@[2].registry_name == "OmaxiMatrix" && r@[2].binary_name == "omaxi-matrix.scr",
        r@[2].fields@ == seq![
            int_at("RainDensity", "Rain Density", 10, 150, 80),
            int_at("RainSpeed", "Rain Speed", 10, 100, 40),
        ],
        r@[3].name == "Omaxi Pour" && r@[3].registry_name == "OmaxiPour" && r@[3].binary_name == "omaxi-pour.scr",
        r@[3].fields@ == seq![
            int_at("DropCount", "Drop Count", 20, 150, 60),
            int_at("DropSpeed", "Drop Speed", 10, 100, 35),
        ],
        r@[4].name == "Omaxi Vectors" && r@[4].registry_name == "OmaxiVectors" && r@[4].binary_name == "omaxi-vectors.scr",
        r@[4].fields@ == seq![
            int_at("ParticleSpeed", "Particle Speed", 10, 100, 30),
            int_at("NodeCount", "Node Count", 20, 80, 50),
        ],
        forall|i: int, j: int|
            0 <= i < r@.len() && 0 <= j < r@[i].fields@.len() ==> field_at_default(#[trigger] r@[i].fields@[j]),
{
    let mut beams: Vec<ConfigField> = Vec::new();
    beams.push(int_field("BeamCount", "Beam Count", 2, 8, 2));
    beams.push(int_field("StarCount", "Star Count", 10, 150, 40));
    beams.push(int_field("BeamSpeed", "Beam Speed", 10, 100, 35));
    let mut bounce: Vec<ConfigField> = Vec::new();
    bounce.push(int_field("BeamSpeed", "Bounce Speed", 10, 100, 35));
    bounce.push(int_field("StarCount", "Star Count", 10, 150, 40));
    let mut matrix: Vec<ConfigField> = Vec::new();
    matrix.push(int_field("RainDensity", "Rain Density", 10, 150, 80));
    matrix.push(int_field("RainSpeed", "Rain Speed", 10, 100, 40));
    let mut pour: Vec<ConfigField> = Vec::new();
    pour.push(int_field("DropCount", "Drop Count", 20, 150, 60));
    pour.push(int_field("DropSpeed", "Drop Speed", 10, 100, 35));
    let mut vectors: Vec<ConfigField> = Vec::new();
    vectors.push(int_field("ParticleSpeed", "Particle Speed", 10, 100, 30));
    vectors.push(int_field("NodeCount", "Node Count", 20, 80, 50));
    let mut r: Vec<ScreensaverConfig> = Vec::new();
    r.push(ScreensaverConfig { name: "Omaxi Beams", registry_name: "OmaxiBeams", binary_name: "omaxi-beams.scr", fields: beams });
    r.push(ScreensaverConfig { name: "Omaxi Bounce", registry_name: "OmaxiBounce", binary_name: "omaxi-bounce.scr", fields: bounce });
    r.push(ScreensaverConfig { name: "Omaxi Matrix", registry_name: "OmaxiMatrix", binary_name: "omaxi-matrix.scr", fields: matrix });
    r.push(ScreensaverConfig { name: "Omaxi Pour", registry_name: "OmaxiPour", binary_name: "omaxi-pour.scr", fields: pour });
    r.push(ScreensaverConfig { name: "Omaxi Vectors", registry_name: "OmaxiVectors", binary_name: "omaxi-vectors.scr", fields: vectors });
    assert(r@[0].fields@ =~= seq![
        int_at("BeamCount", "Beam Count", 2, 8, 2),
        int_at("StarCount", "Star Count", 10, 150, 40),
        int_at("BeamSpeed", "Beam Speed", 10, 100, 35),
    ]);
    assert(r@[1].fields@ =~= seq![int_at("BeamSpeed", "Bounce Speed", 10, 100, 35), int_at("StarCount", "Star Count", 10, 150, 40)]);
    assert(r@[2].fields@ =~= seq![int_at("RainDensity", "Rain Density", 10, 150, 80), int_at("RainSpeed", "Rain Speed", 10, 100, 40)]);
    assert(r@[3].fields@ =~= seq![int_at("DropCount", "Drop Count", 20, 150, 60), int_at("DropSpeed", "Drop Speed", 10, 100, 35)]);
    assert(r@[4].fields@ =~= seq![int_at("ParticleSpeed", "Particle Speed", 10, 100, 30), int_at("NodeCount", "Node Count", 20, 80, 50)]);
    r
}

/// A field after loading it from the registry. `stored` is `None` when the
/// screensaver's key could not be opened (the field gets its default), and
/// else the stored number, if any: an integer field takes it (a missing
/// one reads as the default), a boolean field is true when it is not 0.
pub open spec fn loaded_field(f: ConfigField, stored: Option<Option<u32>>) -> ConfigField {
    match f {
        ConfigField::Integer { name, label, min, max, default, value } => ConfigField::Integer {
            name,
            label,
            min,
            max,
            default,
            value: match stored {
                Some(Some(x)) => x as i32,
                _ => default,
            },
        },
        ConfigField::Boolean { name, label, default, value } => ConfigField::Boolean {
            name,
            label,
            default,
            value: match stored {
                Some(Some(x)) => x != 0,
                _ => default,
            },
        },
    }
}

/// Loads the screensaver's fields from the numbers its registry key holds:
/// `stored` is `None` when the key could not be opened, else it holds the
/// stored number of each field, in order (see `loaded_field`).
pub fn load_screensaver_fields(fields: &mut Vec<ConfigField>, stored: Option<&[Option<u32>]>)
    requires
        stored matches Some(s) ==> s@.len() == old(fields)@.len(),
    ensures
        final(fields)@.len() == old(fields)@.len(),
        forall|i: int|
            0 <= i < final(fields)@.len() ==> #[trigger] final(fields)@[i] == loaded_field(
                old(fields)@[i],
                match stored {
                    Some(s) => Some(s@[i]),
                    None => None,
                },
            ),
{
    let ghost orig = fields@;
    let mut out: Vec<ConfigField> = Vec::new();
    let mut i: usize = 0;
    while i < fields.len()
        invariant
            fields@ == orig,
            i <= orig.len(),
            stored matches Some(s) ==> s@.len() == orig.len(),
            out@.len() == i,
            forall|k: int|
                0 <= k < i ==> #[trigger] out@[k] == loaded_field(
                    orig[k],
                    match stored {
                        Some(s) => Some(s@[k]),
                        None => None,
                    },
                ),
        decreases orig.len() - i,
    {
        let st: Option<Option<u32>> = match stored {
            Some(s) => Some(s[i]),
            None => None,
        };
        let f = match &fields[i] {
            ConfigField::Integer { name, label, min, max, default, value } => {
                let v: i32 = match st {
                    Some(Some(x)) => x as i32,
                    _ => {
                        let d: i32 = *default;
                        let as_u: u32 = d as u32;
                        let back: i32 = as_u as i32;
                        assert(back == d) by (bit_vector)
                            requires
                                as_u == d as u32,
                                back == as_u as i32,
                        ;
                        back
                    },
                };
                ConfigField::Integer { name: *name, label: *label, min: *min, max: *max, default: *default, value: v }
            },
            ConfigField::Boolean { name, label, default, value } => {
                let v: bool = match st {
                    Some(Some(x)) => x != 0,
                    _ => *default,
                };
                ConfigField::Boolean { name: *name, label: *label, default: *default, value: v }
            },
        };
        out.push(f);
        i = i + 1;
    }
    *fields = out;
}

/// The number the registry stores for a field: an integer's value taken
/// as unsigned, 1 or 0 for a boolean.
pub open spec fn stored_number(f: ConfigField) -> u32 {
    match f {
        ConfigField::Integer { value, .. } => value as u32,
        ConfigField::Boolean { value, .. } => if value { 1 } else { 0 },
    }
}

/// The numbers to store in the registry for each field, in order.
pub fn save_screensaver_fields(fields: &[ConfigField]) -> (r: Vec<u32>)
    ensures
        r@.len() == fields@.len(),
        forall|i: int| 0 <= i < r@.len() ==> r@[i] == stored_number(#[trigger] fields@[i]),
{
    let mut r: Vec<u32> = Vec::new();
    let mut i: usize = 0;
    while i < fields.len()
        invariant
            i <= fields@.len(),
            r@.len() == i,
            forall|k: int| 0 <= k < i ==> r@[k] == stored_number(#[trigger] fields@[k]),
        decreases fields@.len() - i,
    {
        let n: u32 = match &fields[i] {
            ConfigField::Integer { value, .. } => *value as u32,
            ConfigField::Boolean { value, .. } => if *value { 1 } else { 0 },
        };
        r.push(n);
        i = i + 1;
    }
    r
}

/// Whether `d` holds only ASCII digits.
pub open spec fn all_digits(d: Seq<char>) -> bool {
    forall|i: int| 0 <= i < d.len() ==> '0' <= #[trigger] d[i] <= '9'
}

/// The number the decimal digits `d` denote.
pub open spec fn digits_value(d: Seq<char>) -> nat
    decreases d.len(),
{
    if d.len() == 0 {
        0
    } else {
        digits_value(d.drop_last()) * 10 + ((d.last() as u32) - ('0' as u32)) as nat
    }
}

/// What `u32::from_str` gives: after an optional `+`, one or more ASCII
/// digits whose value fits in a `u32`; `None` for anything else.
pub open spec fn parsed_u32(s: Seq<char>) -> Option<u32> {
    let d = if s.len() > 0 && s[0] == '+' { s.drop_first() } else { s };
    if d.len() > 0 && all_digits(d) && digits_value(d) <= u32::MAX {
        Some(digits_value(d) as u32)
    } else {
        None
    }
}

proof fn lemma_digits_value_grows(d: Seq<char>, k: int)
    requires
        0 <= k <= d.len(),
        all_digits(d),
    ensures
        digits_value(d.take(k)) <= digits_value(d),
    decreases d.len() - k,
{
    if k < d.len() {
        lemma_digits_value_grows(d, k + 1);
        assert(d.take(k + 1).drop_last() =~= d.take(k));
        assert('0' <= d[k] <= '9');
    } else {
        assert(d.take(k) =~= d);
    }
}

/// Parses a decimal `u32` as `u32::from_str` does (see `parsed_u32`).
pub fn parse_u32(s: &str) -> (r: Option<u32>)
    ensures
        r == parsed_u32(s@),
{
    let v = to_chars(s);
    let start: usize = if v.len() > 0 && v[0] == '+' { 1 } else { 0 };
    let ghost d = if s@.len() > 0 && s@[0] == '+' { s@.drop_first() } else { s@ };
    assert(d =~= v@.skip(start as int));
    if start >= v.len() {
        return None;
    }
    let mut acc: u64 = 0;
    let mut i: usize = start;
    while i < v.len()
        invariant
            v@ == s@,
            start <= i <= v@.len(),
            d == v@.skip(start as int),
            d == if s@.len() > 0 && s@[0] == '+' { s@.drop_first() } else { s@ },
            d.len() > 0,
            all_digits(d.take(i - start)),
            acc == digits_value(d.take(i - start)),
            acc <= u32::MAX,
        decreases v@.len() - i,
    {
        let c = v[i];
        proof {
            assert(d.take(i - start + 1).drop_last() =~= d.take(i - start));
            assert(d[i - start] == c);
        }
        if !('0' <= c && c <= '9') {
            proof {
                assert(!all_digits(d)) by {
                    assert(!('0' <= d[i - start] <= '9'));
                }
                assert(parsed_u32(s@) is None);
            }
            return None;
        }
        let digit: u64 = (c as u32 - '0' as u32) as u64;
        let next = acc * 10 + digit;
        proof {
            assert(all_digits(d.take(i - start + 1)));
        }
        if next > 0xFFFF_FFFF {
            proof {
                if all_digits(d) {
                    lemma_digits_value_grows(d, i - start + 1);
                    assert(digits_value(d) > u32::MAX);
                }
                assert(parsed_u32(s@) is None);
            }
            return None;
        }
        acc = next;
        i = i + 1;
    }
    assert(d.take(i - start) =~= d);
    Some(acc as u32)
}

/// The preferences read from the registry's values (each missing one
/// `None`): the active screensaver path (empty when missing), enabled when
/// the active flag is "1" (it reads as "0" when missing), and the timeout
/// in seconds (600 when missing or not a number).
pub open spec fn config_from_values(
    active_scr: Option<Seq<char>>,
    active: Option<Seq<char>>,
    timeout: Option<Seq<char>>,
) -> (Seq<char>, bool, u32) {
    (
        match active_scr {
            Some(s) => s,
            None => seq![],
        },
        match active {
            Some(a) => a == "1"@,
            None => false,
        },
        match timeout {
            Some(t) => match parsed_u32(t) {
                Some(n) => n,
                None => 600,
            },
            None => 600,
        },
    )
}

/// The screensaver preferences from the registry values of
/// `SCRNSAVE.EXE`, `ScreenSaveActive` and `ScreenSaveTimeOut`.
pub fn load_global_config(active_scr: Option<String>, active: Option<String>, timeout: Option<String>) -> (r: GlobalConfig)
    ensures
        (r.active_scr@, r.active, r.timeout) == config_from_values(opt_chars(active_scr), opt_chars(active), opt_chars(timeout)),
{
    let scr = match active_scr {
        Some(s) => s,
        None => String::new(),
    };
    let on = match &active {
        Some(a) => {
            let av = to_chars(a.as_str());
            let one = to_chars("1");
            chars_equal(av.as_slice(), one.as_slice())
        },
        None => false,
    };
    let t = match &timeout {
        Some(t) => match parse_u32(t.as_str()) {
            Some(n) => n,
            None => 600,
        },
        None => 600,
    };
    GlobalConfig { active_scr: scr, active: on, timeout: t }
}

/// The registry values that store `config`: the path, "1" or "0", and the
/// timeout in decimal.
pub fn save_global_config(config: &GlobalConfig) -> (r: (String, String, String))
    ensures
        r.0@ == config.active_scr@,
        r.1@ == if config.active { "1"@ } else { "0"@ },
        r.2@ == decimal(config.timeout as nat),
{
    let active = String::from_str(if config.active { "1" } else { "0" });
    let mut timeout = String::new();
    push_decimal(&mut timeout, config.timeout as u64);
    assert(timeout@ =~= decimal(config.timeout as nat));
    (config.active_scr.clone(), active, timeout)
}

/// Storing a field's number and loading it back gives the same field.
pub proof fn lemma_field_store_load_roundtrip(f: ConfigField)
    ensures
        loaded_field(f, Some(Some(stored_number(f)))) == f,
{
    match f {
        ConfigField::Integer { value, .. } => {
            let u: u32 = value as u32;
            assert((u as i32) == value) by (bit_vector)
                requires
                    u == value as u32,
            ;
        },
        ConfigField::Boolean { .. } => {},
    }
}

/// Reading back what was stored gives the same preferences: the stored
/// timeout parses to the timeout, and the stored flag reads as the flag.
pub proof fn lemma_global_config_roundtrip(path: Seq<char>, active: bool, timeout: u32)
    ensures
        config_from_values(
            Some(path),
            Some(if active { "1"@ } else { "0"@ }),
            Some(decimal(timeout as nat)),
        ) == (path, active, timeout),
{
    reveal_strlit("1");
    reveal_strlit("0");
    assert("0"@[0] != "1"@[0]);
    lemma_decimal_parses(timeout as nat);
}

proof fn lemma_decimal_digits(n: nat)
    ensures
        decimal(n).len() > 0,
        all_digits(decimal(n)),
        digits_value(decimal(n)) == n,
        decimal(n)[0] != '+',
    decreases n,
{
    let digits = seq!['0', '1', '2', '3', '4', '5', '6', '7', '8', '9'];
    if n >= 10 {
        lemma_decimal_digits(n / 10);
        let d = decimal(n);
        assert(d.drop_last() == decimal(n / 10));
        assert(d[0] == decimal(n / 10)[0]);
        assert forall|i: int| 0 <= i < d.len() implies '0' <= #[trigger] d[i] <= '9' by {
            if i < d.len() - 1 {
                assert(d[i] == decimal(n / 10)[i]);
            }
        }
        let k = (n % 10) as int;
        assert(d.last() == digits[k]);
        assert((digits[k] as u32) - ('0' as u32) == k) by {
            assert(0 <= k < 10);
        }
        assert(digits_value(d) == digits_value(d.drop_last()) * 10 + k);
        assert((n / 10) * 10 + n % 10 == n);
    } else {
        let k = n as int;
        let d = decimal(n);
        assert(d.drop_last() =~= Seq::<char>::empty());
        assert((digits[k] as u32) - ('0' as u32) == k);
        assert(digits_value(d) == digits_value(d.drop_last()) * 10 + k);
    }
}

proof fn lemma_decimal_parses(n: nat)
    requires
        n <= u32::MAX,
    ensures
        parsed_u32(decimal(n)) == Some(n as u32),
{
    lemma_decimal_digits(n);
}

} // verus!
