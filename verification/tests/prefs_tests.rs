use rsaver::prefs::{parse_local_config, render_local_config, LocalConfig};

fn sample() -> LocalConfig {
    LocalConfig {
        last_selected: Some("omaxi-beams.scr".to_string()),
        prevent_sleep: true,
        hide_stock: false,
        random_cycle_secs: 120,
        feed_urls: vec![
            "https://raw.githubusercontent.com/tourian-dynamics/rSaver/master/registry.json".to_string(),
            "https://example.com/custom-screensavers.json".to_string(),
        ],
        selected_paths: vec!["C:\\s\\a.scr".to_string()],
    }
}

#[test]
fn render_writes_one_line_per_setting() {
    assert_eq!(
        render_local_config(&sample()),
        "last_selected: omaxi-beams.scr\nprevent_sleep: true\nhide_stock: false\nrandom_cycle_secs: 120\n\
         feed_urls: https://raw.githubusercontent.com/tourian-dynamics/rSaver/master/registry.json;https://example.com/custom-screensavers.json\n\
         selected_paths: C:\\s\\a.scr\n"
    );
}

#[test]
fn written_preferences_read_back() {
    let c = sample();
    assert_eq!(parse_local_config(&render_local_config(&c)), c);
    let d = LocalConfig::default();
    assert_eq!(parse_local_config(&render_local_config(&d)), d);
}

#[test]
fn reading_feed_urls_and_odd_lines() {
    let c = parse_local_config(
        "# comment\nfeed_urls: https://a/x.json; ;https://b/y.json;\r\nprevent_sleep: maybe\nhide_stock:true\n\
         random_cycle_secs: 45x\nrandom_cycle_secs: +60\nunknown: 1\nlast_selected:   \n",
    );
    assert_eq!(c.feed_urls, vec!["https://a/x.json".to_string(), "https://b/y.json".to_string()]);
    assert!(!c.prevent_sleep);
    assert!(c.hide_stock);
    assert_eq!(c.random_cycle_secs, 60);
    assert_eq!(c.last_selected, None);
    assert_eq!(parse_local_config(""), LocalConfig::default());
}
