use rsaver::config::{has_name, sanitize_with_names};
use rsaver::config::sanitize_config;
use rsaver::registry::GlobalConfig;

fn cfg(scr: &str, active: bool) -> GlobalConfig {
    GlobalConfig { active_scr: scr.to_string(), active, timeout: 600 }
}

#[test]
fn sanitize_keeps_valid_settings() {
    let paths = vec!["/s/a.scr".to_string(), "/s/b.scr".to_string()];
    let mut g = cfg("/elsewhere/b.scr", true);
    let mut last = Some("a.scr".to_string());
    assert_eq!(sanitize_config(&mut g, &mut last, &paths, false, &[true, true]), (false, false));
    assert_eq!(g.active_scr, "/elsewhere/b.scr");
    assert_eq!(last, Some("a.scr".to_string()));
}

#[test]
fn sanitize_resets_missing_active_to_first_existing() {
    let paths = vec!["/s/a.scr".to_string(), "/s/b.scr".to_string()];
    let mut g = cfg("/gone/z.scr", false);
    let mut last = Some("z.scr".to_string());
    assert_eq!(sanitize_config(&mut g, &mut last, &paths, false, &[false, true]), (true, true));
    assert_eq!((g.active_scr.as_str(), g.active), ("/s/b.scr", true));
    assert_eq!(last, None);
}

#[test]
fn sanitize_clears_when_nothing_exists() {
    let paths: Vec<String> = Vec::new();
    let mut g = cfg("/gone/z.scr", true);
    let mut last = None;
    assert_eq!(sanitize_config(&mut g, &mut last, &paths, false, &[]), (true, false));
    assert_eq!((g.active_scr.as_str(), g.active, g.timeout), ("", false, 600));
}

#[test]
fn sanitize_leaves_empty_or_existing_active() {
    let paths: Vec<String> = Vec::new();
    let mut g = cfg("", true);
    let mut last = None;
    assert_eq!(sanitize_config(&mut g, &mut last, &paths, false, &[]), (false, false));
    let mut g = cfg("/on/disk.scr", true);
    assert_eq!(sanitize_config(&mut g, &mut last, &paths, true, &[]), (false, false));
    assert_eq!(g.active_scr, "/on/disk.scr");
}

#[test]
fn sanitize_with_given_names() {
    let paths = vec!["/s/a.scr".to_string()];
    let names = vec![Some("a.scr".to_string())];
    assert!(has_name(&names, &Some("a.scr".to_string())));
    assert!(!has_name(&names, &None));
    let mut g = cfg("/gone/a.scr", true);
    let mut last = Some("b.scr".to_string());
    let r = sanitize_with_names(&mut g, &mut last, &paths, &names, &Some("a.scr".to_string()), false, &[true]);
    assert_eq!(r, (false, true));
    assert_eq!(g.active_scr, "/gone/a.scr");
    assert_eq!(last, None);
}
