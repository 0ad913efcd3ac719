//! Settings and line format of the diagnostics log.

use vstd::prelude::*;
use vstd::string::StringExecFns;
use crate::chars::{opt_chars, opt_str_chars, push_char};
use crate::paths::{join_path, parent_of, path_join, path_parent};

verus! {

/// The logger's settings: the per-app log folder name, fixed by its first
/// setting or first use, and whether events are also sent to the system
/// event log.
#[derive(Debug, Clone)]
pub struct LogSettings {
    pub app_name: Option<String>,
    pub event_log_enabled: bool,
}

impl LogSettings {
    /// Settings with no app name yet and event logging off.
    pub fn new() -> (s: LogSettings)
        ensures
            s.app_name is None,
            !s.event_log_enabled,
    {
        LogSettings { app_name: None, event_log_enabled: false }
    }
}

/// The app name after setting it to `name`: the name already fixed, if any.
pub open spec fn name_after_set(current: Option<Seq<char>>, name: Seq<char>) -> Option<Seq<char>> {
    match current {
        Some(n) => Some(n),
        None => Some(name),
    }
}

/// The app name in use: the one fixed, else "trance".
pub open spec fn name_in_use(current: Option<Seq<char>>) -> Seq<char> {
    match current {
        Some(n) => n,
        None => "trance"@,
    }
}

/// Sets the per-app log folder name, unless one was already set or used:
/// the first setting stays.
pub fn set_log_app_name(settings: &mut LogSettings, name: &str)
    ensures
        opt_chars(final(settings).app_name) == name_after_set(opt_chars(old(settings).app_name), name@),
        final(settings).event_log_enabled == old(settings).event_log_enabled,
{
    if settings.app_name.is_none() {
        settings.app_name = Some(String::from_str(name));
    }
}

/// Enables or disables event logging.
pub fn set_event_log_enabled(settings: &mut LogSettings, enabled: bool)
    ensures
        final(settings).event_log_enabled == enabled,
        opt_chars(final(settings).app_name) == opt_chars(old(settings).app_name),
{
    settings.event_log_enabled = enabled;
}

/// Whether event logging is enabled.
pub fn is_event_log_enabled(settings: &LogSettings) -> (r: bool)
    ensures
        r == settings.event_log_enabled,
{
    settings.event_log_enabled
}

/// The name the logger goes by: the one set, else "trance", which is then
/// kept as the name.
pub fn get_log_app_name(settings: &mut LogSettings) -> (r: String)
    ensures
        r@ == name_in_use(opt_chars(old(settings).app_name)),
        opt_chars(final(settings).app_name) == Some(r@),
        final(settings).event_log_enabled == old(settings).event_log_enabled,
{
    if settings.app_name.is_none() {
        settings.app_name = Some(String::from_str("trance"));
    }
    match &settings.app_name {
        Some(n) => n.clone(),
        None => String::new(),
    }
}

/// Where the diagnostics log goes, for the configuration file at
/// `config_path` and the per-app log folder name `app_name`: with no name
/// set, "rSaver.log" in the configuration's folder; with a name set, a
/// file named after the app ("<name>.log") in a folder of that name beside
/// the configuration's folder.
pub open spec fn log_path_for(config_path: Option<Seq<char>>, app_name: Option<Seq<char>>) -> Option<Seq<char>> {
    match config_path {
        Some(p) => match path_parent(p) {
            Some(dir) => match app_name {
                None => Some(path_join(dir, "rSaver.log"@)),
                Some(n) => match path_parent(dir) {
                    Some(root) => Some(path_join(path_join(root, n), n + ".log"@)),
                    None => None,
                },
            },
            None => None,
        },
        None => None,
    }
}

/// The diagnostics log path for the configuration file at `config_path`
/// and the app name in `settings` (see `log_path_for`).
pub fn get_appdata_log_path(settings: &LogSettings, config_path: Option<&str>) -> (r: Option<String>)
    ensures
        opt_chars(r) == log_path_for(opt_str_chars(config_path), opt_chars(settings.app_name)),
{
    match config_path {
        Some(p) => match parent_of(p) {
            Some(dir) => match &settings.app_name {
                None => Some(join_path(dir.as_str(), "rSaver.log")),
                Some(n) => match parent_of(dir.as_str()) {
                    Some(root) => {
                        let folder = join_path(root.as_str(), n.as_str());
                        let mut file = n.clone();
                        file.append(".log");
                        Some(join_path(folder.as_str(), file.as_str()))
                    },
                    None => None,
                },
            },
            None => None,
        },
        None => None,
    }
}

/// The decimal digit for `d` (below 10).
pub open spec fn digit_char(d: int) -> char {
    seq!['0', '1', '2', '3', '4', '5', '6', '7', '8', '9'][d]
}

/// The decimal notation of `n`, without leading zeros.
pub open spec fn decimal(n: nat) -> Seq<char>
    decreases n,
{
    if n < 10 {
        seq![digit_char(n as int)]
    } else {
        decimal(n / 10).push(digit_char((n % 10) as int))
    }
}

/// Appends the decimal notation of `n` to `s`.
pub fn push_decimal(s: &mut String, n: u64)
    ensures
        final(s)@ == old(s)@ + decimal(n as nat),
    decreases n,
{
    let digits = ['0', '1', '2', '3', '4', '5', '6', '7', '8', '9'];
    if n >= 10 {
        push_decimal(s, n / 10);
    }
    let d = (n % 10) as usize;
    let c = digits[d];
    assert(c == digit_char(d as int));
    push_char(s, c);
    proof {
        if n >= 10 {
            assert(final(s)@ =~= old(s)@ + decimal(n as nat));
        } else {
            assert(final(s)@ =~= old(s)@ + decimal(n as nat));
        }
    }
}

/// The line the log gets for a message: the time in seconds since the
/// Unix epoch and the level, each in square brackets, then the message and
/// a line break.
pub open spec fn log_line(epoch: u64, level: Seq<char>, msg: Seq<char>) -> Seq<char> {
    seq!['['] + decimal(epoch as nat) + seq![']', ' ', '['] + level + seq![']', ' '] + msg + seq!['\n']
}

/// The text that logging `msg` at `level` appends to the log file at time
/// `epoch` (see `log_line`).
pub fn log_message(epoch: u64, level: &str, msg: &str) -> (r: String)
    ensures
        r@ == log_line(epoch, level@, msg@),
{
    let mut s = String::new();
    push_char(&mut s, '[');
    push_decimal(&mut s, epoch);
    push_char(&mut s, ']');
    push_char(&mut s, ' ');
    push_char(&mut s, '[');
    s.append(level);
    push_char(&mut s, ']');
    push_char(&mut s, ' ');
    s.append(msg);
    push_char(&mut s, '\n');
    assert(s@ =~= log_line(epoch, level@, msg@));
    s
}

/// The first setting of the app name stays: a later setting, or using the
/// name, leaves it as it is, and using it gives back the name first set.
pub proof fn lemma_first_app_name_stays(current: Option<Seq<char>>, first: Seq<char>, later: Seq<char>)
    ensures
        name_after_set(name_after_set(current, first), later) == name_after_set(current, first),
        name_after_set(None, first) == Some(first),
        name_in_use(name_after_set(None, first)) == first,
        name_after_set(Some(name_in_use(current)), later) == Some(name_in_use(current)),
{
}

} // verus!
