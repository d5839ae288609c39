use swaytools::model::{Output, Workspace};
use swaytools::sway::Sway;

fn ws(num: i32, name: &str, output: &str, focused: bool, visible: bool) -> Workspace {
    Workspace { num, name: name.to_string(), output: output.to_string(), focused, visible }
}

fn out(name: &str, serial: &str, focused: bool) -> Output {
    Output {
        name: name.to_string(),
        make: "Dell".to_string(),
        model: "X2353".to_string(),
        serial: serial.to_string(),
        focused,
    }
}

#[test]
fn workspace_lookups_take_the_first_match() {
    let mut sway = Sway::new();
    assert!(sway.workspaces().is_none());
    assert!(sway.focused_workspace().is_none());
    sway.update_workspaces(vec![
        ws(1, "1", "A", false, true),
        ws(-1, "mail", "B", true, true),
        ws(2, "1", "A", false, false),
    ]);
    assert_eq!(sway.workspace_by_num(2).unwrap().name, "1");
    assert_eq!(sway.workspace_by_name("1").unwrap().num, 1);
    assert_eq!(sway.workspace_by_num_or_name(Some(2), Some("mail")).unwrap().num, -1);
    assert_eq!(sway.workspace_by_num_or_name(None, Some("1")).unwrap().num, 1);
    assert!(sway.workspace_by_num_or_name(Some(7), None).is_none());
    assert_eq!(sway.focused_workspace().unwrap().name, "mail");
    assert_eq!(sway.visible_workspace_on("B").unwrap().name, "mail");
}

#[test]
fn snapshots_are_kept_until_reset() {
    let mut sway = Sway::new();
    sway.update_workspaces(vec![ws(1, "1", "A", true, true)]);
    sway.update_workspaces(vec![ws(2, "2", "A", true, true)]);
    assert_eq!(sway.focused_workspace().unwrap().num, 1);
    sway.force_update_workspaces(vec![ws(2, "2", "A", true, true)]);
    assert_eq!(sway.focused_workspace().unwrap().num, 2);
    sway.reset_workspaces();
    assert!(sway.workspaces().is_none());
}

#[test]
fn output_lookups_by_name_or_descriptor() {
    let mut sway = Sway::new();
    sway.update_outputs(vec![out("VGA-1", "1", false), out("DP-1", "2", true)]);
    assert_eq!(sway.output_by_name_or_identifier(Some("DP-1"), None).unwrap().serial, "2");
    assert_eq!(sway.output_by_name_or_identifier(None, Some("Dell X2353 1")).unwrap().name, "VGA-1");
    assert!(sway.output_by_name_or_identifier(Some("HDMI"), Some("HDMI")).is_none());
    assert_eq!(sway.focused_output().unwrap().name, "DP-1");
    sway.reset_outputs();
    assert!(sway.outputs().is_none());
    sway.force_update_outputs(vec![out("X", "3", true)]);
    assert_eq!(sway.focused_output().unwrap().name, "X");
}
