use rsaver::cycle::filter_paths;
use rsaver::cycle::{cycle_candidates, cycle_step, is_self, is_uninstall, names_uninstaller, CycleAction, CycleEvent};

#[test]
fn is_self_compares_paths() {
    assert!(is_self("/opt/app/rsav", Some("/opt/app/rsav")));
    assert!(is_self("rsav", Some("rsav")));
    assert!(is_self("/opt/app//rsav", Some("/opt/app/rsav")));
    assert!(!is_self("/opt/app/other", Some("/opt/app/rsav")));
    assert!(!is_self("/opt/app/rsav", None));
}

#[test]
fn is_uninstall_looks_at_file_name() {
    assert!(is_uninstall("/x/Uninstall.exe"));
    assert!(is_uninstall("/x/my-UNINSTALLER.scr"));
    assert!(!is_uninstall("/uninstall/beams.scr"));
    assert!(!is_uninstall("/"));
}

#[test]
fn cycle_candidates_filter() {
    let paths = vec![
        "/s/a.scr".to_string(),
        "/s/b.scr".to_string(),
        "/s/uninstall.exe".to_string(),
        "/bin/rsav".to_string(),
        "/s/c.scr".to_string(),
    ];
    let exists = [true, false, true, true, true];
    assert_eq!(
        cycle_candidates(&paths, &exists, Some("/bin/rsav")),
        vec!["/s/a.scr".to_string(), "/s/c.scr".to_string()]
    );
}

#[test]
fn cycle_step_follows_the_seed_sequence() {
    let (s1, a1) = cycle_step(0, 3, CycleEvent::Started);
    assert_eq!(s1, 1442695040888963407);
    assert_eq!(a1, CycleAction::Launch((1442695040888963407u64 as usize) % 3));
    let (s2, a2) = cycle_step(s1, 3, CycleEvent::TimedOut);
    let expect = s1.wrapping_mul(6364136223846793005).wrapping_add(1442695040888963407);
    assert_eq!(s2, expect);
    assert_eq!(a2, CycleAction::Launch((expect as usize) % 3));
    assert_eq!(cycle_step(5, 3, CycleEvent::Exited), (5, CycleAction::Stop));
    assert_eq!(cycle_step(5, 3, CycleEvent::SpawnFailed), (5, CycleAction::Stop));
    assert_eq!(cycle_step(5, 0, CycleEvent::Started), (5, CycleAction::Stop));
}

#[test]
fn cycle_launches_stay_in_range() {
    let mut seed = 12345u64;
    for _ in 0..1000 {
        let (s, a) = cycle_step(seed, 7, CycleEvent::TimedOut);
        match a {
            CycleAction::Launch(i) => assert!(i < 7),
            CycleAction::Stop => panic!("stopped"),
        }
        seed = s;
    }
}

#[test]
fn filter_paths_keeps_flagged() {
    let paths = vec!["a".to_string(), "b".to_string(), "c".to_string()];
    assert_eq!(filter_paths(&paths, &[true, false, true]), vec!["a".to_string(), "c".to_string()]);
    assert_eq!(filter_paths(&paths, &[false, false, false]), Vec::<String>::new());
}

#[test]
fn uninstaller_names() {
    assert!(names_uninstaller("ssm-uninstall.exe"));
    assert!(!names_uninstaller("SSM-UNINSTALL.exe"));
    assert!(!names_uninstaller("install.exe"));
}
