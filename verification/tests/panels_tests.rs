use rsaver::panels::{is_too_small, prefs_text, theme_override, too_small_message, ThemeChoice};

#[test]
fn too_small_checks_and_message() {
    assert!(is_too_small(99, 40, 100, 35));
    assert!(is_too_small(120, 30, 100, 35));
    assert!(!is_too_small(100, 35, 100, 35));
    assert_eq!(too_small_message(60, 25, 40, 10), "Need at least 60x25, current 40x10.");
}

#[test]
fn prefs_panel_values() {
    let p = prefs_text(true, 600, false, 45, true);
    assert_eq!(p.active, "ACTIVE");
    assert_eq!(p.timeout, "10 minutes");
    assert_eq!(p.prevent_sleep, "DISABLED (NORMAL)");
    assert_eq!(p.cycle_time, "45 seconds");
    assert_eq!(p.hide_stock, "YES");
    let p = prefs_text(false, 59, true, 0, false);
    assert_eq!(p.active, "DISABLED");
    assert_eq!(p.timeout, "0 minutes");
    assert_eq!(p.prevent_sleep, "ACTIVE (SYSTEM AWAKE)");
    assert_eq!(p.hide_stock, "NO");
}

#[test]
fn theme_overrides() {
    assert_eq!(theme_override("light"), Some(ThemeChoice::Light));
    assert_eq!(theme_override("dark"), Some(ThemeChoice::Dark));
    assert_eq!(theme_override("high-contrast"), Some(ThemeChoice::HighContrast));
    assert_eq!(theme_override("no-color"), Some(ThemeChoice::NoColor));
    assert_eq!(theme_override("invalid-override-xyz"), None);
}
