use rsaver::logger::{
    get_appdata_log_path, get_log_app_name, is_event_log_enabled, log_message, set_event_log_enabled,
    set_log_app_name, LogSettings,
};

#[test]
fn app_name_first_setting_stays() {
    let mut s = LogSettings::new();
    set_log_app_name(&mut s, "helm");
    set_log_app_name(&mut s, "other");
    assert_eq!(get_log_app_name(&mut s), "helm");
}

#[test]
fn app_name_defaults_and_then_is_fixed() {
    let mut s = LogSettings::new();
    assert_eq!(get_log_app_name(&mut s), "trance");
    set_log_app_name(&mut s, "late");
    assert_eq!(get_log_app_name(&mut s), "trance");
}

#[test]
fn event_log_flag_reads_back() {
    let mut s = LogSettings::new();
    assert!(!is_event_log_enabled(&s));
    set_event_log_enabled(&mut s, true);
    assert!(is_event_log_enabled(&s));
    set_event_log_enabled(&mut s, false);
    assert!(!is_event_log_enabled(&s));
}

#[test]
fn log_line_format() {
    assert_eq!(log_message(1725029869, "INFO", "started"), "[1725029869] [INFO] started\n");
    assert_eq!(log_message(0, "WARN", ""), "[0] [WARN] \n");
    assert_eq!(log_message(u64::MAX, "E", "x"), format!("[{}] [E] x\n", u64::MAX));
}

#[test]
fn log_path_beside_config() {
    let s = LogSettings::new();
    assert_eq!(
        get_appdata_log_path(&s, Some("/home/u/rSaver/config.yaml")),
        Some("/home/u/rSaver/rSaver.log".to_string())
    );
    assert_eq!(get_appdata_log_path(&s, None), None);
    assert_eq!(get_appdata_log_path(&s, Some("/")), None);
}

#[test]
fn app_name_sets_the_log_folder() {
    let mut s = LogSettings::new();
    set_log_app_name(&mut s, "helm");
    assert_eq!(
        get_appdata_log_path(&s, Some("/home/u/rSaver/config.yaml")),
        Some("/home/u/helm/helm.log".to_string())
    );
    let mut r = LogSettings::new();
    set_log_app_name(&mut r, "rSaver");
    assert_eq!(
        get_appdata_log_path(&r, Some("/home/u/rSaver/config.yaml")),
        Some("/home/u/rSaver/rSaver.log".to_string())
    );
}
