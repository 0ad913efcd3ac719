use rsaver::layout::ButtonRect;
use rsaver::dashboard::{App, AppKey, KeyEffects, Screensaver};
use rsaver::prefs::LocalConfig;
use rsaver::registry::GlobalConfig;
use rsaver::state::{FocusedSection, GlobalField, StatusKind};

fn saver(name: &str, path: &str) -> Screensaver {
    Screensaver { name: name.to_string(), path: path.to_string() }
}

fn global_default() -> GlobalConfig {
    GlobalConfig { active_scr: String::new(), active: false, timeout: 0 }
}

fn app_with(savers: Vec<Screensaver>, local: LocalConfig) -> App {
    App::new(savers, global_default(), local, false, "user".to_string(), "host".to_string(), "10".to_string())
}

// Bubbles, Mystify and Ribbons are stock Windows screensavers.
fn mock_app() -> App {
    let screensavers = vec![
        saver("Bubbles", "bubbles.scr"),
        saver("Mystify", "mystify.scr"),
        saver("Ribbons", "ribbons.scr"),
    ];
    app_with(screensavers, LocalConfig::default())
}

fn effects(save_global: bool, save_local: bool, preview: bool) -> KeyEffects {
    KeyEffects { save_global, save_local, preview, refresh: false, document: None, configure: false, delete: false }
}

const NONE: KeyEffects = KeyEffects {
    save_global: false,
    save_local: false,
    preview: false,
    refresh: false,
    document: None,
    configure: false,
    delete: false,
};

#[test]
fn test_filtered_indices() {
    let mut app = mock_app();
    assert_eq!(app.filtered_indices(), vec![0, 1, 2]);
    app.local.hide_stock = true;
    assert_eq!(app.filtered_indices(), Vec::<usize>::new());
}

#[test]
fn test_handle_key_navigation_and_focus() {
    let mut app = mock_app();
    assert_eq!(app.focused, FocusedSection::GlobalPrefs);
    assert_eq!(app.global_field, GlobalField::Active);

    app.handle_key(AppKey::Down);
    assert_eq!(app.global_field, GlobalField::Timeout);

    app.handle_key(AppKey::Down);
    assert_eq!(app.global_field, GlobalField::PreventSleep);

    app.handle_key(AppKey::Down);
    assert_eq!(app.global_field, GlobalField::HideStock);

    app.handle_key(AppKey::Tab);
    assert_eq!(app.focused, FocusedSection::SaverList);
}

#[test]
fn test_handle_key_toggle_preferences() {
    let mut app = mock_app();
    assert_eq!(app.global.active, false);

    app.focused = FocusedSection::GlobalPrefs;
    app.global_field = GlobalField::Active;
    let e = app.handle_key(AppKey::Char(' '));

    assert_eq!(app.global.active, true);
    assert_eq!(e, effects(true, false, false));
}

#[test]
fn test_handle_key_select_screensaver() {
    let mut app = mock_app();

    app.focused = FocusedSection::SaverList;

    assert_eq!(app.global.active_scr, "");

    let e = app.handle_key(AppKey::Enter);
    assert_eq!(app.global.active_scr, "bubbles.scr");
    assert!(app.global.active);
    assert_eq!(app.local.last_selected.as_deref(), Some("bubbles.scr"));
    assert_eq!(e, effects(true, true, false));
    assert!(app.list_items[0].checked);
    assert!(!app.list_items[1].checked);
}

#[test]
fn new_highlights_last_selected() {
    let local = LocalConfig { last_selected: Some("mystify.scr".to_string()), ..LocalConfig::default() };
    let app = app_with(
        vec![saver("Bubbles", "savers/bubbles.scr"), saver("Mystify", "savers/mystify.scr")],
        local,
    );
    assert_eq!(app.highlighted, 1);
    assert_eq!(app.list_items.len(), 2);
    assert_eq!(app.list_items[1].kind, "Stock");
    assert_eq!(app.current_screensaver().map(|s| s.name.as_str()), Some("Mystify"));
    let empty = app_with(Vec::new(), LocalConfig::default());
    assert_eq!(empty.highlighted, 0);
    assert!(empty.current_screensaver().is_none());
}

#[test]
fn list_navigation_skips_hidden_stock() {
    let savers = vec![
        saver("Bubbles", "bubbles.scr"),
        saver("Aurora", "aurora.scr"),
        saver("Mystify", "mystify.scr"),
        saver("Nebula", "nebula.scr"),
    ];
    let mut app = app_with(savers, LocalConfig::default());
    app.focused = FocusedSection::SaverList;
    app.handle_key(AppKey::Down);
    assert_eq!(app.highlighted, 1);
    // Hiding stock screensavers keeps a custom highlight.
    app.focused = FocusedSection::GlobalPrefs;
    app.global_field = GlobalField::HideStock;
    let e = app.handle_key(AppKey::Enter);
    assert!(app.local.hide_stock);
    assert_eq!(e, effects(false, true, false));
    assert_eq!(app.highlighted, 1);
    app.focused = FocusedSection::SaverList;
    app.handle_key(AppKey::Char('j'));
    assert_eq!(app.highlighted, 3);
    app.handle_key(AppKey::Down);
    assert_eq!(app.highlighted, 3);
    app.handle_key(AppKey::Char('k'));
    assert_eq!(app.highlighted, 1);
    app.handle_key(AppKey::Up);
    assert_eq!(app.highlighted, 1);
}

#[test]
fn hiding_stock_moves_highlight_to_first_shown() {
    let savers = vec![saver("Bubbles", "bubbles.scr"), saver("Aurora", "aurora.scr")];
    let mut app = app_with(savers, LocalConfig::default());
    app.local.hide_stock = true;
    app.resolve_highlight();
    assert_eq!(app.highlighted, 1);
    app.local.hide_stock = false;
    app.highlighted = 0;
    app.resolve_highlight();
    assert_eq!(app.highlighted, 0);
    let mut all_stock = mock_app();
    all_stock.highlighted = 2;
    all_stock.local.hide_stock = true;
    all_stock.resolve_highlight();
    assert_eq!(all_stock.highlighted, 0);
}

#[test]
fn overlays_and_quit() {
    let mut app = mock_app();
    assert_eq!(app.handle_key(AppKey::Char('h')), NONE);
    assert!(app.show_help);
    app.handle_key(AppKey::Down);
    assert_eq!(app.global_field, GlobalField::Active);
    app.handle_key(AppKey::Esc);
    assert!(!app.show_help);
    app.open_embedded_markdown("README", "# Title\ntext");
    assert_eq!(app.show_markdown.as_deref(), Some("README"));
    let status = app.status.clone().unwrap();
    assert_eq!(status.text, "Opened document: README");
    assert_eq!(status.kind, StatusKind::Info);
    assert!(!app.markdown_lines.is_empty());
    app.handle_key(AppKey::Down);
    app.handle_key(AppKey::Char('j'));
    assert_eq!(app.markdown_scroll, 2);
    app.handle_key(AppKey::Up);
    assert_eq!(app.markdown_scroll, 1);
    app.handle_key(AppKey::Char('q'));
    assert!(app.show_markdown.is_none());
    assert!(!app.should_quit);
    app.handle_key(AppKey::Char('q'));
    assert!(app.should_quit);
}

#[test]
fn space_on_list_asks_for_preview() {
    let mut app = mock_app();
    app.handle_key(AppKey::BackTab);
    assert_eq!(app.focused, FocusedSection::SaverList);
    assert_eq!(app.handle_key(AppKey::Char(' ')), effects(false, false, true));
    assert_eq!(app.global.active_scr, "");
    assert_eq!(app.handle_key(AppKey::Char('x')), NONE);
}

#[test]
fn apply_key_and_other_fields() {
    let mut app = mock_app();
    app.highlighted = 2;
    let e = app.handle_key(AppKey::Char('a'));
    assert_eq!(e, effects(true, true, false));
    assert_eq!(app.global.active_scr, "ribbons.scr");
    assert!(app.list_items[2].checked);
    app.global_field = GlobalField::Timeout;
    assert_eq!(app.handle_key(AppKey::Enter), NONE);
    app.global_field = GlobalField::PreventSleep;
    app.handle_key(AppKey::Enter);
    assert!(app.local.prevent_sleep);
    app.global_field = GlobalField::Active;
    app.handle_key(AppKey::Enter);
    assert!(!app.global.active);
    assert!(!app.list_items[2].checked);
}

#[test]
fn power_source_changes() {
    let mut app = mock_app();
    assert!(!app.sync_power_status_if_needed(5000, true));
    assert!(!app.on_battery);
    assert!(app.status.is_none());
    assert!(app.sync_power_status_if_needed(5001, true));
    assert!(app.on_battery);
    assert_eq!(
        app.status.clone().unwrap().text,
        "Power Source Changed: Battery (Power-Saving Throttling Enabled)"
    );
    app.status = None;
    assert!(app.sync_power_status_if_needed(9000, true));
    assert!(app.status.is_none());
}

#[test]
fn left_right_adjust_preferences() {
    let mut app = mock_app();
    app.global.timeout = 300;
    app.global_field = GlobalField::Timeout;
    assert_eq!(app.handle_key(AppKey::Right), effects(true, false, false));
    assert_eq!(app.global.timeout, 360);
    app.handle_key(AppKey::Left);
    app.handle_key(AppKey::Left);
    assert_eq!(app.global.timeout, 240);
    app.global.timeout = 100;
    app.handle_key(AppKey::Left);
    assert_eq!(app.global.timeout, 100);
    app.global_field = GlobalField::HideStock;
    assert_eq!(app.handle_key(AppKey::Right), effects(false, true, false));
    assert!(app.local.hide_stock);
    app.focused = FocusedSection::SaverList;
    assert_eq!(app.handle_key(AppKey::Left), NONE);
}

#[test]
fn preview_refresh_and_document_keys() {
    let mut app = mock_app();
    assert_eq!(app.handle_key(AppKey::Char('p')), effects(false, false, true));
    assert_eq!(app.handle_key(AppKey::Char('t')), effects(false, false, true));
    assert_eq!(
        app.handle_key(AppKey::Char('r')),
        KeyEffects { refresh: true, ..NONE }
    );
    assert_eq!(app.handle_key(AppKey::F(1)), KeyEffects { document: Some(1), ..NONE });
    assert_eq!(app.handle_key(AppKey::F(7)), KeyEffects { document: Some(7), ..NONE });
    assert_eq!(app.handle_key(AppKey::F(8)), NONE);
    assert_eq!(app.handle_key(AppKey::F(0)), NONE);
}

#[test]
fn header_button_clicks() {
    let mut app = mock_app();
    app.handle_click(1, 50);
    assert!(!app.show_help && !app.should_quit);
    app.help_btn_bounds = Some(ButtonRect::new(1, 80, 86));
    app.quit_btn_bounds = Some(ButtonRect::new(1, 89, 95));
    app.handle_click(1, 80);
    assert!(app.show_help);
    app.handle_click(1, 85);
    assert!(!app.show_help);
    app.handle_click(1, 86);
    assert!(!app.show_help && !app.should_quit);
    app.handle_click(2, 90);
    assert!(!app.should_quit);
    app.handle_click(1, 94);
    assert!(app.should_quit);
}

#[test]
fn power_check_is_due_after_five_seconds() {
    assert!(!App::power_check_due(0));
    assert!(!App::power_check_due(5000));
    assert!(App::power_check_due(5001));
}

#[test]
fn configure_and_delete_keys() {
    let mut app = mock_app();
    assert_eq!(app.handle_key(AppKey::Char('c')), KeyEffects { configure: true, ..NONE });
    assert_eq!(app.handle_key(AppKey::Char('C')), KeyEffects { configure: true, ..NONE });
    assert_eq!(app.handle_key(AppKey::Char('d')), KeyEffects { delete: true, ..NONE });
    assert_eq!(app.handle_key(AppKey::Char('D')), KeyEffects { delete: true, ..NONE });
    assert_eq!(app.handle_key(AppKey::Char('f')), NONE);
    app.show_help = true;
    assert_eq!(app.handle_key(AppKey::Char('d')), NONE);
}
