use rsaver::install::{install_message, self_delete_script, shortcut_script};

#[test]
fn shortcut_script_quotes_paths() {
    let s = shortcut_script("C:\\Start\\O'Neil SSM.lnk", "C:\\apps\\ssm.exe", "Manage and configure Omaxi Screensavers");
    assert_eq!(
        s,
        "$WshShell = New-Object -ComObject WScript.Shell; $Shortcut = $WshShell.CreateShortcut('C:\\Start\\O''Neil SSM.lnk'); $Shortcut.TargetPath = 'C:\\apps\\ssm.exe'; $Shortcut.Description = 'Manage and configure Omaxi Screensavers'; $Shortcut.Save()"
    );
}

#[test]
fn self_delete_command_text() {
    assert_eq!(
        self_delete_script("C:\\ssm\\uninstall.exe", "C:\\ssm"),
        "timeout /T 1 /NOBREAK > NUL && del \"C:\\ssm\\uninstall.exe\" && rmdir \"C:\\ssm\""
    );
}

#[test]
fn install_message_lists_steps_that_worked() {
    assert_eq!(
        install_message("C:\\apps\\ssm", true, false, true),
        "Screen Saver Management (SSM) has been successfully installed!\n\nDestination: C:\\apps\\ssm\n\n\
         ✓ App shortcut added to Start Menu (Programs\\Omaxi).\n\
         ✓ Registered with Windows Apps & Features for quick uninstallation.\n"
    );
    assert_eq!(
        install_message("D", false, true, false),
        "Screen Saver Management (SSM) has been successfully installed!\n\nDestination: D\n\n\
         ✓ Uninstaller shortcut added to Start Menu.\n"
    );
}
