//! Command-line arguments.

use vstd::prelude::*;
use vstd::string::StringExecFns;
use crate::chars::{chars_equal, has_prefix, opt_chars, skip_chars, starts_with, to_chars, from_chars};

verus! {

/// A subcommand.
#[derive(Clone, Copy, Debug, PartialEq, Eq, Structural)]
pub enum Command {
    /// Launch the dashboard.
    Ui,
    /// Check the system configuration, healing it with `fix`.
    Doctor { fix: bool },
    /// Run the active screensaver full screen.
    Run,
    /// End the screensavers that are running.
    Stop,
    /// Switch the system screensaver on or off.
    ToggleActive,
}

/// The options and subcommand given on the command line.
#[derive(Clone, Debug, PartialEq, Eq)]
pub struct Cli {
    pub theme: Option<String>,
    pub command: Option<Command>,
}

/// What the command line asks for.
#[derive(Clone, Debug, PartialEq, Eq)]
pub enum ParsedArgs {
    /// Run with these options.
    Run(Cli),
    /// Print the help text and exit.
    Help,
    /// Print the version and exit.
    Version,
    /// Report this message and exit with a failure.
    Error(String),
}

/// A subcommand word seen on the command line.
#[derive(Clone, Copy, Debug, PartialEq, Eq, Structural)]
pub enum CommandWord {
    Ui,
    Doctor,
    Run,
    Stop,
    ToggleActive,
}

/// The spec form of what the command line asks for.
pub enum ArgsOutcome {
    Run { theme: Option<Seq<char>>, command: Option<Command> },
    Help,
    Version,
    Error(Seq<char>),
}

impl View for ParsedArgs {
    type V = ArgsOutcome;

    open spec fn view(&self) -> ArgsOutcome {
        match self {
            ParsedArgs::Run(cli) => ArgsOutcome::Run { theme: opt_chars(cli.theme), command: cli.command },
            ParsedArgs::Help => ArgsOutcome::Help,
            ParsedArgs::Version => ArgsOutcome::Version,
            ParsedArgs::Error(m) => ArgsOutcome::Error(m@),
        }
    }
}

/// The command for the last subcommand word seen; `doctor` takes the fix flag.
pub open spec fn command_of(word: Option<CommandWord>, fix: bool) -> Option<Command> {
    match word {
        Some(CommandWord::Ui) => Some(Command::Ui),
        Some(CommandWord::Doctor) => Some(Command::Doctor { fix }),
        Some(CommandWord::Run) => Some(Command::Run),
        Some(CommandWord::Stop) => Some(Command::Stop),
        Some(CommandWord::ToggleActive) => Some(Command::ToggleActive),
        None => None,
    }
}

/// The subcommand a word names: `ui` or `tui` (the dashboard), `doctor`,
/// `run`, `stop` or `toggle-active`.
pub open spec fn word_of(a: Seq<char>) -> Option<CommandWord> {
    if a == "ui"@ || a == "tui"@ {
        Some(CommandWord::Ui)
    } else if a == "doctor"@ {
        Some(CommandWord::Doctor)
    } else if a == "run"@ {
        Some(CommandWord::Run)
    } else if a == "stop"@ {
        Some(CommandWord::Stop)
    } else if a == "toggle-active"@ {
        Some(CommandWord::ToggleActive)
    } else {
        None
    }
}

/// The outcome of reading the arguments `args`, having read a theme, a
/// subcommand word and the fix flag before them. Arguments are read from
/// the left: `--theme` takes the next argument as the theme (an error when
/// there is none), `--theme=T` gives the theme T, `-h`/`--help` and
/// `-V`/`--version` end the reading, `--fix` sets the fix flag, a
/// subcommand word (see `word_of`) chooses the subcommand (the last one
/// counts), and any other argument is an error.
pub open spec fn parse_rest(
    args: Seq<Seq<char>>,
    theme: Option<Seq<char>>,
    word: Option<CommandWord>,
    fix: bool,
) -> ArgsOutcome
    decreases args.len(),
{
    if args.len() == 0 {
        ArgsOutcome::Run { theme, command: command_of(word, fix) }
    } else {
        let a = args[0];
        if a == "--theme"@ {
            if args.len() >= 2 {
                parse_rest(args.skip(2), Some(args[1]), word, fix)
            } else {
                ArgsOutcome::Error("Error: --theme requires a value"@)
            }
        } else if a == "-h"@ || a == "--help"@ {
            ArgsOutcome::Help
        } else if a == "-V"@ || a == "--version"@ {
            ArgsOutcome::Version
        } else if a == "--fix"@ {
            parse_rest(args.skip(1), theme, word, true)
        } else if has_prefix(a, "--theme="@) {
            parse_rest(args.skip(1), Some(a.skip(8)), word, fix)
        } else if word_of(a) is Some {
            parse_rest(args.skip(1), theme, word_of(a), fix)
        } else {
            ArgsOutcome::Error("Error: unexpected argument '"@ + a + "'"@)
        }
    }
}

fn is_word(a: &[char], w: &str) -> (r: bool)
    ensures
        r == (a@ == w@),
{
    let wv = to_chars(w);
    chars_equal(a, wv.as_slice())
}

fn word_from(a: &[char]) -> (r: Option<CommandWord>)
    ensures
        r == word_of(a@),
{
    if is_word(a, "ui") || is_word(a, "tui") {
        Some(CommandWord::Ui)
    } else if is_word(a, "doctor") {
        Some(CommandWord::Doctor)
    } else if is_word(a, "run") {
        Some(CommandWord::Run)
    } else if is_word(a, "stop") {
        Some(CommandWord::Stop)
    } else if is_word(a, "toggle-active") {
        Some(CommandWord::ToggleActive)
    } else {
        None
    }
}

/// Reads the command-line arguments (the program name left out); see
/// `parse_rest` for the rules.
pub fn parse_args(args: &Vec<String>) -> (r: ParsedArgs)
    ensures
        r@ == parse_rest(args.deep_view(), None, None, false),
{
    let ghost all = args.deep_view();
    let mut theme: Option<String> = None;
    let mut word: Option<CommandWord> = None;
    let mut fix = false;
    let mut i: usize = 0;
    assert(all.skip(0) =~= all);
    while i < args.len()
        invariant
            all == args.deep_view(),
            i <= all.len(),
            parse_rest(all.skip(i as int), opt_chars(theme), word, fix) == parse_rest(all, None, None, false),
        decreases all.len() - i,
    {
        let ghost rest = all.skip(i as int);
        let a = to_chars(args[i].as_str());
        assert(a@ == rest[0]);
        assert(rest.skip(1) =~= all.skip(i + 1));
        if is_word(a.as_slice(), "--theme") {
            if i + 1 < args.len() {
                assert(rest.skip(2) =~= all.skip(i + 2));
                assert(rest[1] == args[i + 1 as int]@);
                theme = Some(args[i + 1].clone());
                i = i + 2;
            } else {
                return ParsedArgs::Error(String::from_str("Error: --theme requires a value"));
            }
        } else if is_word(a.as_slice(), "-h") || is_word(a.as_slice(), "--help") {
            return ParsedArgs::Help;
        } else if is_word(a.as_slice(), "-V") || is_word(a.as_slice(), "--version") {
            return ParsedArgs::Version;
        } else if is_word(a.as_slice(), "--fix") {
            fix = true;
            i = i + 1;
        } else {
            let pre = to_chars("--theme=");
            if starts_with(a.as_slice(), pre.as_slice()) {
                proof {
                    reveal_strlit("--theme=");
                }
                let t = skip_chars(a.as_slice(), 8);
                theme = Some(from_chars(t.as_slice()));
                i = i + 1;
            } else if let Some(w) = word_from(a.as_slice()) {
                word = Some(w);
                i = i + 1;
            } else {
                let mut m = String::from_str("Error: unexpected argument '");
                m.append(args[i].as_str());
                m.append("'");
                return ParsedArgs::Error(m);
            }
        }
    }
    assert(all.skip(i as int) =~= Seq::<Seq<char>>::empty());
    ParsedArgs::Run(Cli { theme, command: match word {
        Some(CommandWord::Ui) => Some(Command::Ui),
        Some(CommandWord::Doctor) => Some(Command::Doctor { fix }),
        Some(CommandWord::Run) => Some(Command::Run),
        Some(CommandWord::Stop) => Some(Command::Stop),
        Some(CommandWord::ToggleActive) => Some(Command::ToggleActive),
        None => None,
    } })
}

/// `--theme=T` and `--theme T` ask for the same thing, and `-h`, `--help`,
/// `-V` and `--version` end the reading whatever follows them.
pub proof fn lemma_theme_forms_agree(
    t: Seq<char>,
    rest: Seq<Seq<char>>,
    theme: Option<Seq<char>>,
    word: Option<CommandWord>,
    fix: bool,
)
    ensures
        parse_rest(seq!["--theme="@ + t] + rest, theme, word, fix) == parse_rest(
            seq!["--theme"@, t] + rest,
            theme,
            word,
            fix,
        ),
        parse_rest(seq!["-h"@] + rest, theme, word, fix) == ArgsOutcome::Help,
        parse_rest(seq!["--help"@] + rest, theme, word, fix) == ArgsOutcome::Help,
        parse_rest(seq!["-V"@] + rest, theme, word, fix) == ArgsOutcome::Version,
        parse_rest(seq!["--version"@] + rest, theme, word, fix) == ArgsOutcome::Version,
{
    reveal_strlit("--theme=");
    reveal_strlit("--theme");
    reveal_strlit("-h");
    reveal_strlit("--help");
    reveal_strlit("-V");
    reveal_strlit("--version");
    reveal_strlit("ui");
    reveal_strlit("doctor");
    reveal_strlit("--fix");
    let a = "--theme="@ + t;
    let l = seq![a] + rest;
    assert(l[0] == a);
    assert(a[2] == 't' && a[7] == '=');
    assert(a != "--theme"@ && a != "-h"@ && a != "--help"@ && a != "-V"@) by {
        if a == "--theme"@ {
            assert(a.len() != "--theme"@.len());
        }
        if a == "--help"@ {
            assert(a[2] != "--help"@[2]);
        }
    }
    assert(a != "--version"@ && a != "ui"@ && a != "doctor"@ && a != "--fix"@) by {
        if a == "--version"@ {
            assert(a[2] != "--version"@[2]);
        }
        if a == "doctor"@ {
            assert(a[0] != "doctor"@[0]);
        }
        if a == "--fix"@ {
            assert(a[2] != "--fix"@[2]);
        }
    }
    assert(has_prefix(a, "--theme="@)) by {
        assert(a.take(8) =~= "--theme="@);
    }
    assert(a.skip(8) =~= t);
    assert(l.skip(1) =~= rest);
    let m = seq!["--theme"@, t] + rest;
    assert(m[0] == "--theme"@);
    assert(m[1] == t);
    assert(m.skip(2) =~= rest);
    assert((seq!["-h"@] + rest)[0] == "-h"@);
    assert((seq!["--help"@] + rest)[0] == "--help"@);
    assert((seq!["-V"@] + rest)[0] == "-V"@);
    assert((seq!["--version"@] + rest)[0] == "--version"@);
    assert("-h"@ != "--theme"@) by { assert("-h"@.len() != "--theme"@.len()); }
    assert("--help"@ != "--theme"@) by { assert("--help"@.len() != "--theme"@.len()); }
    assert("-V"@ != "--theme"@) by { assert("-V"@.len() != "--theme"@.len()); }
    assert("-V"@ != "-h"@) by { assert("-V"@[1] != "-h"@[1]); }
    assert("-V"@ != "--help"@) by { assert("-V"@.len() != "--help"@.len()); }
    assert("--version"@ != "--theme"@) by { assert("--version"@.len() != "--theme"@.len()); }
    assert("--version"@ != "-h"@) by { assert("--version"@.len() != "-h"@.len()); }
    assert("--version"@ != "--help"@) by { assert("--version"@.len() != "--help"@.len()); }
}

/// The doctor's fix flag is set only by a `--fix` among the arguments
/// (or one read before them); and when no `--theme` takes an argument as
/// its value, it is set exactly when `--fix` is among the arguments.
pub proof fn lemma_fix_flag_needs_fix(args: Seq<Seq<char>>, theme: Option<Seq<char>>, word: Option<CommandWord>, fix: bool)
    ensures
        parse_rest(args, theme, word, fix) matches ArgsOutcome::Run { command: Some(Command::Doctor { fix: f }), .. }
            ==> (f ==> fix || args.contains("--fix"@)),
        parse_rest(args, theme, word, fix) matches ArgsOutcome::Run { command: Some(Command::Doctor { fix: f }), .. }
            ==> (!args.contains("--theme"@) ==> f == (fix || args.contains("--fix"@))),
    decreases args.len(),
{
    reveal_strlit("--fix");
    reveal_strlit("--theme");
    reveal_strlit("--theme=");
    if args.len() > 0 {
        let a = args[0];
        assert(args[0] == a);
        if a == "--theme"@ {
            if args.len() >= 2 {
                lemma_fix_flag_needs_fix(args.skip(2), Some(args[1]), word, fix);
                if args.skip(2).contains("--fix"@) {
                    let k = choose|k: int| 0 <= k < args.skip(2).len() && args.skip(2)[k] == "--fix"@;
                    assert(args[k + 2] == "--fix"@);
                }
            }
        } else if a == "-h"@ || a == "--help"@ {
        } else if a == "-V"@ || a == "--version"@ {
        } else {
            let rest = args.skip(1);
            assert forall|x: Seq<char>| args.contains(x) <==> (a == x || rest.contains(x)) by {
                if args.contains(x) {
                    let k = choose|k: int| 0 <= k < args.len() && args[k] == x;
                    if k > 0 {
                        assert(rest[k - 1] == x);
                    }
                }
                if rest.contains(x) {
                    let k = choose|k: int| 0 <= k < rest.len() && rest[k] == x;
                    assert(args[k + 1] == x);
                }
            }
            if a == "--fix"@ {
                lemma_fix_flag_needs_fix(rest, theme, word, true);
            } else if has_prefix(a, "--theme="@) {
                assert(a != "--theme"@) by {
                    if a == "--theme"@ {
                        assert(a.len() == 7);
                    }
                }
                lemma_fix_flag_needs_fix(rest, Some(a.skip(8)), word, fix);
            } else if word_of(a) is Some {
                lemma_fix_flag_needs_fix(rest, theme, word_of(a), fix);
            }
        }
    }
}

} // verus!
