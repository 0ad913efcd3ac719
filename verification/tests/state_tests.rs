use rsaver::state::{
    initial_highlight, list_row, opened_document_status, power_status_update, FocusedSection, GlobalField,
    StatusKind, StatusMessage,
};

#[test]
fn initial_highlight_by_last_selected() {
    let names = vec![Some("bubbles.scr".to_string()), Some("mystify.scr".to_string()), None];
    assert_eq!(initial_highlight(&names, Some("mystify.scr")), 1);
    assert_eq!(initial_highlight(&names, Some("missing.scr")), 0);
    assert_eq!(initial_highlight(&names, None), 0);
    assert_eq!(initial_highlight(&[], Some("x")), 0);
}

#[test]
fn status_messages() {
    let m = opened_document_status("README.md");
    assert_eq!(m, StatusMessage { text: "Opened document: README.md".to_string(), kind: StatusKind::Info });
    assert_eq!(power_status_update(false, false), None);
    assert_eq!(
        power_status_update(false, true).unwrap().text,
        "Power Source Changed: Battery (Power-Saving Throttling Enabled)"
    );
    assert_eq!(power_status_update(true, false).unwrap().text, "Power Source Changed: AC Power (Full Speed)");
}

#[test]
fn list_row_text() {
    let r = list_row("Bubbles", "C:\\Windows\\bubbles.scr", "C:\\Windows\\bubbles.scr", true, true);
    assert!(r.checked);
    assert_eq!(r.status, format!("{:<8}  ", "yes"));
    assert_eq!(r.name, format!("{:<30}  ", "Bubbles"));
    assert_eq!(r.kind, "Stock");
    let r = list_row("A very long screensaver name indeed", "b.scr", "a.scr", true, false);
    assert!(!r.checked);
    assert_eq!(r.status, "no        ");
    assert_eq!(r.name, format!("{:<30}  ", "A very long screensaver nam…"));
    assert_eq!(r.kind, "Custom");
    let r = list_row("X", "a.scr", "a.scr", false, false);
    assert!(!r.checked);
}

#[test]
fn enums_and_field_order() {
    assert_eq!(
        GlobalField::ALL,
        [GlobalField::Active, GlobalField::Timeout, GlobalField::PreventSleep, GlobalField::HideStock]
    );
    assert_ne!(FocusedSection::GlobalPrefs, FocusedSection::SaverList);
}
