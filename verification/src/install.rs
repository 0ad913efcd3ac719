//! Commands that the installer and the uninstaller hand to the shell.

use vstd::prelude::*;
use vstd::string::StringExecFns;
use crate::chars::{push_char, to_chars};

verus! {

/// `s` with every single quote doubled, as a PowerShell single-quoted
/// string needs it.
pub open spec fn ps_escaped(s: Seq<char>) -> Seq<char>
    decreases s.len(),
{
    if s.len() == 0 {
        seq![]
    } else {
        ps_escaped(s.drop_last()) + if s.last() == '\'' {
            seq!['\'', '\'']
        } else {
            seq![s.last()]
        }
    }
}

/// Appends `s` to `out` with its single quotes doubled.
fn push_ps_escaped(out: &mut String, s: &str)
    ensures
        final(out)@ == old(out)@ + ps_escaped(s@),
{
    let v = to_chars(s);
    let ghost start = out@;
    let mut i: usize = 0;
    while i < v.len()
        invariant
            v@ == s@,
            i <= v@.len(),
            out@ == start + ps_escaped(v@.take(i as int)),
        decreases v@.len() - i,
    {
        proof {
            assert(v@.take(i + 1).drop_last() =~= v@.take(i as int));
        }
        let c = v[i];
        push_char(out, c);
        if c == '\'' {
            push_char(out, '\'');
        }
        i = i + 1;
        assert(out@ =~= start + ps_escaped(v@.take(i as int)));
    }
    assert(v@.take(i as int) =~= v@);
}

/// The PowerShell command that creates a shortcut at `shortcut_path` to
/// `target` with the description `description`, each quoted.
pub open spec fn shortcut_command(shortcut_path: Seq<char>, target: Seq<char>, description: Seq<char>) -> Seq<char> {
    "$WshShell = New-Object -ComObject WScript.Shell; $Shortcut = $WshShell.CreateShortcut('"@
        + ps_escaped(shortcut_path) + "'); $Shortcut.TargetPath = '"@ + ps_escaped(target)
        + "'; $Shortcut.Description = '"@ + ps_escaped(description) + "'; $Shortcut.Save()"@
}

/// The PowerShell script that creates a Start Menu shortcut (see
/// `shortcut_command`).
pub fn shortcut_script(shortcut_path: &str, target: &str, description: &str) -> (r: String)
    ensures
        r@ == shortcut_command(shortcut_path@, target@, description@),
{
    let mut s = String::from_str(
        "$WshShell = New-Object -ComObject WScript.Shell; $Shortcut = $WshShell.CreateShortcut('",
    );
    push_ps_escaped(&mut s, shortcut_path);
    s.append("'); $Shortcut.TargetPath = '");
    push_ps_escaped(&mut s, target);
    s.append("'; $Shortcut.Description = '");
    push_ps_escaped(&mut s, description);
    s.append("'; $Shortcut.Save()");
    s
}

/// `s` with each doubled single quote read back as one.
pub open spec fn ps_unescaped(s: Seq<char>) -> Seq<char>
    decreases s.len(),
{
    if s.len() >= 2 && s[0] == '\'' && s[1] == '\'' {
        seq!['\''] + ps_unescaped(s.skip(2))
    } else if s.len() == 0 {
        seq![]
    } else {
        seq![s[0]] + ps_unescaped(s.drop_first())
    }
}

/// How `ps_escaped` grows with one more character at the front.
proof fn lemma_ps_escaped_front(c: char, s: Seq<char>)
    ensures
        ps_escaped(seq![c] + s) == (if c == '\'' { seq!['\'', '\''] } else { seq![c] }) + ps_escaped(s),
    decreases s.len(),
{
    let pc: Seq<char> = if c == '\'' { seq!['\'', '\''] } else { seq![c] };
    if s.len() == 0 {
        assert(seq![c] + s =~= seq![c]);
        assert((seq![c] + s).drop_last() =~= Seq::<char>::empty());
        assert(seq![c].drop_last() =~= Seq::<char>::empty());
        assert(seq![c].last() == c);
        assert(ps_escaped(Seq::<char>::empty()) =~= Seq::<char>::empty());
        assert(ps_escaped(seq![c]) == ps_escaped(Seq::<char>::empty()) + pc);
        assert(ps_escaped(seq![c]) =~= pc);
        assert(pc + ps_escaped(s) =~= pc);
    } else {
        lemma_ps_escaped_front(c, s.drop_last());
        assert((seq![c] + s).drop_last() =~= seq![c] + s.drop_last());
        assert((seq![c] + s).last() == s.last());
        let tl: Seq<char> = if s.last() == '\'' { seq!['\'', '\''] } else { seq![s.last()] };
        assert(ps_escaped(s) == ps_escaped(s.drop_last()) + tl);
        assert((pc + ps_escaped(s.drop_last())) + tl =~= pc + (ps_escaped(s.drop_last()) + tl));
    }
}

/// Quoting loses nothing: reading a quoted text back gives the text.
pub proof fn lemma_ps_escape_roundtrip(s: Seq<char>)
    ensures
        ps_unescaped(ps_escaped(s)) == s,
    decreases s.len(),
{
    if s.len() > 0 {
        let c = s[0];
        let rest = s.drop_first();
        assert(s =~= seq![c] + rest);
        lemma_ps_escaped_front(c, rest);
        lemma_ps_escape_roundtrip(rest);
        let e = ps_escaped(s);
        if c == '\'' {
            assert(e.skip(2) =~= ps_escaped(rest));
        } else {
            assert(e.drop_first() =~= ps_escaped(rest));
        }
    }
}

/// The `cmd` command that, a second after the uninstaller exits, deletes
/// it and its folder.
pub open spec fn self_delete_command(exe: Seq<char>, dir: Seq<char>) -> Seq<char> {
    "timeout /T 1 /NOBREAK > NUL && del \""@ + exe + "\" && rmdir \""@ + dir + "\""@
}

/// The uninstaller's self-deleting command (see `self_delete_command`).
pub fn self_delete_script(exe: &str, dir: &str) -> (r: String)
    ensures
        r@ == self_delete_command(exe@, dir@),
{
    let mut s = String::from_str("timeout /T 1 /NOBREAK > NUL && del \"");
    s.append(exe);
    s.append("\" && rmdir \"");
    s.append(dir);
    s.append("\"");
    s
}

/// The message the installer ends with: where it installed, then a line
/// for each step that worked: the Start Menu shortcut, the uninstaller's
/// shortcut, and the entry in Apps & Features.
pub open spec fn install_report(destination: Seq<char>, shortcut: bool, uninstall_shortcut: bool, registered: bool) -> Seq<char> {
    "Screen Saver Management (SSM) has been successfully installed!\n\nDestination: "@ + destination + "\n\n"@
        + (if shortcut { "\u{2713} App shortcut added to Start Menu (Programs\\Omaxi).\n"@ } else { seq![] })
        + (if uninstall_shortcut { "\u{2713} Uninstaller shortcut added to Start Menu.\n"@ } else { seq![] })
        + (if registered { "\u{2713} Registered with Windows Apps & Features for quick uninstallation.\n"@ } else { seq![] })
}

/// The installer's closing message (see `install_report`).
pub fn install_message(destination: &str, shortcut: bool, uninstall_shortcut: bool, registered: bool) -> (r: String)
    ensures
        r@ == install_report(destination@, shortcut, uninstall_shortcut, registered),
{
    let mut s = String::from_str("Screen Saver Management (SSM) has been successfully installed!\n\nDestination: ");
    s.append(destination);
    s.append("\n\n");
    let ghost head = s@;
    if shortcut {
        s.append("\u{2713} App shortcut added to Start Menu (Programs\\Omaxi).\n");
    }
    let ghost with_shortcut = s@;
    if uninstall_shortcut {
        s.append("\u{2713} Uninstaller shortcut added to Start Menu.\n");
    }
    let ghost with_uninstall = s@;
    if registered {
        s.append("\u{2713} Registered with Windows Apps & Features for quick uninstallation.\n");
    }
    proof {
        assert(with_shortcut =~= head + (if shortcut { "\u{2713} App shortcut added to Start Menu (Programs\\Omaxi).\n"@ } else { seq![] }));
        assert(with_uninstall =~= with_shortcut + (if uninstall_shortcut { "\u{2713} Uninstaller shortcut added to Start Menu.\n"@ } else { seq![] }));
        assert(s@ =~= with_uninstall + (if registered { "\u{2713} Registered with Windows Apps & Features for quick uninstallation.\n"@ } else { seq![] }));
    }
    s
}

} // verus!
