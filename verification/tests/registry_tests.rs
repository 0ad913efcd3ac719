use rsaver::registry::{
    get_screensavers, load_global_config, load_screensaver_fields, parse_u32, save_global_config,
    save_screensaver_fields, ConfigField, GlobalConfig,
};

#[test]
fn catalog_contents() {
    let list = get_screensavers();
    let names: Vec<&str> = list.iter().map(|c| c.registry_name).collect();
    assert_eq!(names, vec!["OmaxiBeams", "OmaxiBounce", "OmaxiMatrix", "OmaxiPour", "OmaxiVectors"]);
    assert_eq!(list[0].name, "Omaxi Beams");
    assert_eq!(list[0].fields.len(), 3);
    match &list[2].fields[0] {
        ConfigField::Integer { name, label, min, max, default, value } => {
            assert_eq!((*name, *label, *min, *max, *default, *value), ("RainDensity", "Rain Density", 10, 150, 80, 80));
        }
        _ => panic!("integer field expected"),
    }
}

#[test]
fn load_fields_from_stored_values() {
    let mut fields = vec![
        ConfigField::Integer { name: "A", label: "A", min: 0, max: 10, default: 5, value: 1 },
        ConfigField::Boolean { name: "B", label: "B", default: true, value: false },
        ConfigField::Integer { name: "C", label: "C", min: 0, max: 10, default: 7, value: 1 },
    ];
    load_screensaver_fields(&mut fields, Some(&[Some(9), Some(0), None]));
    let values: Vec<String> = fields.iter().map(|f| format!("{:?}", f)).collect();
    assert!(values[0].contains("value: 9"));
    assert!(values[1].contains("value: false"));
    assert!(values[2].contains("value: 7"));
    load_screensaver_fields(&mut fields, None);
    assert_eq!(save_screensaver_fields(&fields), vec![5, 1, 7]);
}

#[test]
fn save_fields_numbers() {
    let fields = vec![
        ConfigField::Integer { name: "A", label: "A", min: -5, max: 10, default: 0, value: -1 },
        ConfigField::Boolean { name: "B", label: "B", default: false, value: true },
    ];
    assert_eq!(save_screensaver_fields(&fields), vec![u32::MAX, 1]);
}

#[test]
fn parse_u32_like_std() {
    for s in ["600", "+42", "0", "4294967295", "4294967296", "", "+", "-1", "12a", " 1", "007"] {
        assert_eq!(parse_u32(s), s.parse::<u32>().ok(), "input {:?}", s);
    }
}

#[test]
fn global_config_values() {
    let c = load_global_config(Some("C:\\b.scr".to_string()), Some("1".to_string()), Some("300".to_string()));
    assert_eq!((c.active_scr.as_str(), c.active, c.timeout), ("C:\\b.scr", true, 300));
    let c = load_global_config(None, None, None);
    assert_eq!((c.active_scr.as_str(), c.active, c.timeout), ("", false, 600));
    let c = load_global_config(None, Some("yes".to_string()), Some("ten".to_string()));
    assert_eq!((c.active, c.timeout), (false, 600));
    let saved = save_global_config(&GlobalConfig { active_scr: "x.scr".to_string(), active: true, timeout: 900 });
    assert_eq!(saved, ("x.scr".to_string(), "1".to_string(), "900".to_string()));
    let back = load_global_config(Some(saved.0), Some(saved.1), Some(saved.2));
    assert_eq!((back.active_scr.as_str(), back.active, back.timeout), ("x.scr", true, 900));
}

#[test]
fn toggle_active_flips_only_the_switch() {
    let mut g = GlobalConfig { active_scr: "a.scr".to_string(), active: false, timeout: 600 };
    rsaver::registry::toggle_active(&mut g);
    assert!(g.active);
    assert_eq!(g.active_scr, "a.scr");
    assert_eq!(g.timeout, 600);
    rsaver::registry::toggle_active(&mut g);
    assert!(!g.active);
}
