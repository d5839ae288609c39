use swaytools::history::ws_monitor_record;
use swaytools::mapping::Mapping;
use swaytools::model::Output;
use swaytools::reconcile::{ws_map, MapArgs};
use swaytools::sway::Sway;

#[test]
fn saved_mapping_loads_back_equal() {
    let mut m = Mapping::new();
    m.insert("VGA-1".to_string(), vec![1, 2, 3]);
    m.insert("HDMI-A-3".to_string(), vec![2, 5]);
    let text = m.to_json().unwrap();
    let back = Mapping::from_json(&text).unwrap();
    assert_eq!(back.get("VGA-1").unwrap(), &vec![1, 2, 3]);
    assert_eq!(back.get("HDMI-A-3").unwrap(), &vec![2, 5]);
    assert_eq!(back.entries().len(), 2);
}

#[test]
fn mapping_text_is_a_json_object() {
    let mut m = Mapping::new();
    m.insert("VGA-1".to_string(), vec![1, 2]);
    assert_eq!(m.to_json().unwrap(), "{\"VGA-1\":[1,2]}");
}

#[test]
fn malformed_mapping_text_is_an_error() {
    assert!(Mapping::from_json("").is_err());
    assert!(Mapping::from_json("[1]").is_err());
}

#[test]
fn insert_replaces_earlier_numbers() {
    let mut m = Mapping::new();
    m.insert("VGA-1".to_string(), vec![1, 2]);
    m.insert("VGA-1".to_string(), vec![7]);
    assert_eq!(m.get("VGA-1").unwrap(), &vec![7]);
    assert_eq!(m.entries().len(), 1);
    assert_eq!(m.output_for_workspace(7), Some("VGA-1".to_string()));
    assert_eq!(m.output_for_workspace(1), None);
}

fn out(name: &str) -> Output {
    Output {
        name: name.to_string(),
        make: "Dell".to_string(),
        model: "X2353".to_string(),
        serial: "0x2342".to_string(),
        focused: false,
    }
}

#[test]
fn map_twice_keeps_only_the_later_token() {
    let mut sway = Sway::new();
    sway.update_outputs(vec![out("VGA-1"), out("HDMI-A-3")]);
    let args = MapArgs {
        maps: vec![
            ("VGA-1".to_string(), vec![1, 2, 3]),
            ("VGA-1".to_string(), vec![4]),
        ],
    };
    let text = ws_map(&mut sway, &args).unwrap();
    assert_eq!(sway.mapping.get("VGA-1").unwrap(), &vec![4]);
    assert_eq!(text, "{\"VGA-1\":[4]}");
}

#[test]
fn map_resolves_descriptors_and_skips_unknown_outputs() {
    let mut sway = Sway::new();
    sway.update_outputs(vec![out("VGA-1")]);
    let args = MapArgs {
        maps: vec![
            ("Dell X2353 0x2342".to_string(), vec![9]),
            ("DP-7".to_string(), vec![1]),
        ],
    };
    ws_map(&mut sway, &args).unwrap();
    assert_eq!(sway.mapping.get("VGA-1").unwrap(), &vec![9]);
    assert!(sway.mapping.get("DP-7").is_none());
}

#[test]
fn previous_workspace_record_round_trips() {
    let sway = Sway::new();
    let text = sway.save_focused_workspace(3, "3:mail").unwrap();
    assert_eq!(text, "[\"3:mail\",3]");
    assert_eq!(sway.get_previous_workspace(&text).unwrap(), ("3:mail".to_string(), 3));
    assert!(sway.get_previous_workspace("{").is_err());
}

#[test]
fn monitor_records_only_complete_events() {
    let sway = Sway::new();
    assert_eq!(ws_monitor_record(&sway, Some(2), Some("2")), Some("[\"2\",2]".to_string()));
    assert_eq!(ws_monitor_record(&sway, None, Some("2")), None);
    assert_eq!(ws_monitor_record(&sway, Some(2), None), None);
}
