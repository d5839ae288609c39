use swaytools::connection::Connection;
use swaytools::keyboard::{
    build_clude_list, get_include_exclude, join_rendered, json_escaped, keyboard_selected,
    KeyboardSelection, Layout,
};
use swaytools::mapping::Mapping;
use swaytools::model::{Output, Workspace};
use swaytools::tools::{
    add_mapping, get_focused_workspace, get_output_for_workspace, get_visible_workspace_for_output,
    make_config, move_window_to_workspace, output_if_exists, switch_to_workspace, workspace_exists,
    workspace_output, WorkspaceCli,
};

fn out(name: &str, focused: bool) -> Output {
    Output {
        name: name.to_string(),
        make: "Dell".to_string(),
        model: "X2353".to_string(),
        serial: "0x2342".to_string(),
        focused,
    }
}

fn ws(num: i32, output: &str, focused: bool, visible: bool) -> Workspace {
    Workspace { num, name: num.to_string(), output: output.to_string(), focused, visible }
}

#[test]
fn output_found_by_name_or_descriptor() {
    let outs = vec![out("VGA-1", true)];
    assert_eq!(output_if_exists("VGA-1".to_string(), &outs), Some("VGA-1".to_string()));
    assert_eq!(output_if_exists("Dell X2353 0x2342".to_string(), &outs), Some("VGA-1".to_string()));
    assert_eq!(output_if_exists("DP-1".to_string(), &outs), None);
    assert_eq!(outs[0].identifier(), "Dell X2353 0x2342");
}

#[test]
fn tool_tokens_build_a_mapping() {
    let outs = vec![out("VGA-1", true), out("DP-1", false)];
    let m = make_config(
        vec![
            "VGA-1:1-3".to_string(),
            "DP-1:6-4".to_string(),
            "DP-2:7".to_string(),
            "VGA-1:9".to_string(),
            "nonsense".to_string(),
        ],
        &outs,
    );
    assert_eq!(m.get("VGA-1").unwrap(), &vec![9]);
    assert_eq!(m.get("DP-1").unwrap(), &vec![4, 5, 6]);
    assert!(m.get("DP-2").is_none());
    assert_eq!(get_output_for_workspace(5, &m), Some("DP-1".to_string()));
    assert_eq!(get_output_for_workspace(1, &m), None);
}

#[test]
fn tool_token_splits_at_last_colon() {
    let outs = vec![out("a:b", true)];
    let mut m = Mapping::new();
    assert_eq!(add_mapping("a:b:2", &mut m, &outs), Some(()));
    assert_eq!(m.get("a:b").unwrap(), &vec![2]);
    assert_eq!(add_mapping("a:b:x", &mut m, &outs), None);
    assert_eq!(m.get("a:b").unwrap(), &vec![2]);
}

#[test]
fn workspace_queries() {
    let wss = vec![ws(1, "A", false, true), ws(2, "B", true, true), ws(3, "A", false, false)];
    assert!(workspace_exists(3, &wss));
    assert!(!workspace_exists(4, &wss));
    assert_eq!(get_focused_workspace(&wss).unwrap().num, 2);
    assert_eq!(get_visible_workspace_for_output(&"A".to_string(), &wss).unwrap().num, 1);
    assert!(get_visible_workspace_for_output(&"C".to_string(), &wss).is_none());
}

#[test]
fn tool_output_prefers_the_command_line() {
    let outs = vec![out("VGA-1", true), out("DP-1", false)];
    let mut m = Mapping::new();
    m.insert("DP-1".to_string(), vec![4]);
    let cli = WorkspaceCli { number: "number".to_string(), workspace: 4, output: Some("VGA-1".to_string()) };
    assert_eq!(workspace_output(&cli, &outs, Some(&m)), Some("VGA-1".to_string()));
    let cli = WorkspaceCli { number: "number".to_string(), workspace: 4, output: Some("HDMI".to_string()) };
    assert_eq!(workspace_output(&cli, &outs, Some(&m)), Some("DP-1".to_string()));
    assert_eq!(workspace_output(&cli, &outs, None), None);
}

#[test]
fn tool_commands_move_new_workspaces() {
    let mut c = Connection::new();
    switch_to_workspace(&mut c, 4, &Some("DP-1".to_string()), false);
    switch_to_workspace(&mut c, 5, &Some("DP-1".to_string()), true);
    move_window_to_workspace(&mut c, 6, &Some("DP-1".to_string()), false);
    move_window_to_workspace(&mut c, 7, &None, false);
    assert_eq!(
        c.commands().clone(),
        vec![
            "workspace 4",
            "[workspace=4] move workspace to 'DP-1'",
            "workspace 5",
            "move to workspace number 6",
            "[workspace=6] move workspace to 'DP-1'",
            "move to workspace number 7",
        ]
        .into_iter()
        .map(|s| s.to_string())
        .collect::<Vec<String>>()
    );
}

fn layout(name: &str) -> Layout {
    Layout { description: String::new(), name: name.to_string(), variant: None, brief: None }
}

#[test]
fn flags_of_layout_names() {
    assert_eq!(layout("de").flag(), "\u{1F1E9}\u{1F1EA}");
    assert_eq!(layout("us").flag(), "\u{1F1FA}\u{1F1F8}");
    assert_eq!(layout("deu").flag(), "");
    assert_eq!(layout("").flag(), "");
    assert_eq!(layout("\u{e9}").flag(), "");
    assert_eq!(layout("!!").flag(), "");
}

#[test]
fn json_escaping() {
    assert_eq!(json_escaped("a\"b\nc"), "a\\\"b\\nc");
    assert_eq!(json_escaped("plain"), "plain");
    assert_eq!(json_escaped(""), "");
}

#[test]
fn keyboard_lists_and_selection() {
    let lines = vec!["".to_string(), "# comment".to_string(), "1:1:kbd".to_string()];
    assert_eq!(build_clude_list(&vec!["x".to_string()], &Some(lines.clone())), vec!["x".to_string(), "1:1:kbd".to_string()]);
    let sel = KeyboardSelection { wanted: vec![], wanted_file: None, unwanted: vec!["y".to_string()], unwanted_file: Some(lines) };
    let (list, wanted) = get_include_exclude(&sel);
    assert!(!wanted);
    assert_eq!(list, vec!["y".to_string(), "1:1:kbd".to_string()]);
    assert!(keyboard_selected(&list, false, "keyboard", "z"));
    assert!(!keyboard_selected(&list, false, "keyboard", "y"));
    assert!(keyboard_selected(&list, true, "keyboard", "y"));
    assert!(!keyboard_selected(&list, true, "pointer", "y"));
}

#[test]
fn renderings_are_joined_without_failures() {
    let parts = vec![Some("a".to_string()), None, Some("b".to_string()), Some("c".to_string())];
    assert_eq!(join_rendered(&parts, ", "), "a, b, c");
    assert_eq!(join_rendered(&vec![None], "|"), "");
    assert_eq!(join_rendered(&vec![Some("x".to_string())], "|"), "x");
}

#[test]
fn saved_tool_config_is_json() {
    let mut m = Mapping::new();
    m.insert("DP-1".to_string(), vec![3, 1]);
    assert_eq!(swaytools::tools::save_config(&m), Some("{\"DP-1\":[3,1]}".to_string()));
}
