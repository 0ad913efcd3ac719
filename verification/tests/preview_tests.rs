use rsaver::preview::{is_scr_extension, is_stock_name, is_stock_screensaver, pretty_name_from, join_capitalized, omaxi_stem, strip_scr};
use rsaver::preview::{discovered, is_downloaded, is_screensaver_file, pretty_screensaver_name, screensaver_entry, sort_by_name};

#[test]
fn screensaver_files() {
    assert!(is_screensaver_file("/x/beams.scr"));
    assert!(is_screensaver_file("/x/BEAMS.SCR"));
    assert!(is_screensaver_file("/x/Beams.ScR"));
    assert!(!is_screensaver_file("/x/beams.exe"));
    assert!(!is_screensaver_file("/x/scr"));
}

#[test]
fn pretty_names() {
    assert_eq!(pretty_screensaver_name("omaxi-beams.scr"), "Beams");
    assert_eq!(pretty_screensaver_name("Omaxi-Beams.scr"), "Omaxi-Beams.scr");
    assert_eq!(pretty_screensaver_name("omaxi-beams.SCR"), "omaxi-beams.SCR");
    assert_eq!(pretty_screensaver_name("omaxi-.scr"), "");
    assert_eq!(pretty_screensaver_name("bubbles.scr"), "bubbles");
    assert_eq!(pretty_screensaver_name("mystify.SCR"), "mystify.SCR");
    assert_eq!(pretty_screensaver_name("omaxi-ßeams.scr"), "SSeams");
}

#[test]
fn entries_for_paths() {
    assert_eq!(
        screensaver_entry("/apps/omaxi-matrix.scr"),
        Some(("Matrix".to_string(), "/apps/omaxi-matrix.scr".to_string()))
    );
    assert_eq!(screensaver_entry("/apps/readme.txt"), None);
}

#[test]
fn sorting_by_name() {
    let v = vec![
        ("Matrix".to_string(), "m".to_string()),
        ("Beams".to_string(), "b".to_string()),
        ("beams".to_string(), "b2".to_string()),
        ("Bounce".to_string(), "o".to_string()),
        ("Beam".to_string(), "x".to_string()),
    ];
    let mut expect = v.clone();
    expect.sort_by(|a, b| a.0.cmp(&b.0));
    assert_eq!(sort_by_name(&v), expect);
}

#[test]
fn name_building_steps() {
    assert!(is_scr_extension("sCr"));
    assert!(!is_scr_extension("scrx"));
    assert_eq!(omaxi_stem("omaxi-pour.scr"), Some("pour".to_string()));
    assert_eq!(omaxi_stem("omaxi-pour.exe"), None);
    assert_eq!(omaxi_stem("Omaxi-pour.scr"), None);
    assert_eq!(strip_scr("ribbons.scr"), "ribbons");
    assert_eq!(strip_scr("ribbons.SCR"), "ribbons.SCR");
    assert_eq!(join_capitalized("P", "pour"), "Pour");
}

#[test]
fn stock_screensavers_by_file_name() {
    assert!(is_stock_screensaver("bubbles.scr"));
    assert!(is_stock_screensaver("C:/Windows/System32/Mystify.scr"));
    assert!(is_stock_screensaver("sys/ssText3d.scr"));
    assert!(!is_stock_screensaver("savers/aurora.scr"));
    assert!(!is_stock_screensaver("bubbles.scr.bak"));
    assert!(!is_stock_screensaver(""));
}

#[test]
fn discovered_filters_and_sorts() {
    let paths: Vec<String> = ["d/omaxi-zeta.scr", "d/readme.txt", "d/Alpha.SCR", "d/beta.scr", "d/alpha.scr"]
        .iter()
        .map(|s| s.to_string())
        .collect();
    let found = discovered(&paths);
    assert_eq!(
        found,
        vec![
            ("Alpha.SCR".to_string(), "d/Alpha.SCR".to_string()),
            ("Zeta".to_string(), "d/omaxi-zeta.scr".to_string()),
            ("alpha".to_string(), "d/alpha.scr".to_string()),
            ("beta".to_string(), "d/beta.scr".to_string()),
        ]
    );
}

#[test]
fn names_given_their_case_forms() {
    assert!(is_stock_name("mystify.scr"));
    assert!(!is_stock_name("Mystify.scr"));
    assert_eq!(pretty_name_from("omaxi-beams.scr", "omaxi-beams.scr", "B"), "Beams");
    assert_eq!(pretty_name_from("OMAXI-x.scr", "omaxi-x.scr", "X"), "OMAXI-x.scr");
    assert_eq!(pretty_name_from("Aurora.scr", "aurora.scr", "o"), "Aurora");
}

#[test]
fn downloaded_screensavers_lie_in_the_drop_folder() {
    assert!(is_downloaded("/home/u/rSaver/screensavers/beams.scr", "/home/u/rSaver/screensavers"));
    assert!(is_downloaded("/home/u/rSaver/screensavers/beams.scr", "/home/u/rSaver/screensavers/"));
    assert!(!is_downloaded("/home/u/rSaver/screensavers/sub/beams.scr", "/home/u/rSaver/screensavers"));
    assert!(!is_downloaded("/windows/system32/bubbles.scr", "/home/u/rSaver/screensavers"));
    assert!(!is_downloaded("", "/home/u/rSaver/screensavers"));
}
