use swaytools::mapping::Mapping;
use swaytools::model::{TreeOutput, TreeWindow, TreeWorkspace, Workspace, WsError};
use swaytools::reconcile::{ws_move, ws_move_finish, Move, WS_MOVE_MARKER};
use swaytools::sway::Sway;

fn ws(num: i32, name: &str, output: &str, focused: bool, visible: bool) -> Workspace {
    Workspace { num, name: name.to_string(), output: output.to_string(), focused, visible }
}

fn window(marks: &[&str]) -> TreeWindow {
    TreeWindow { marks: marks.iter().map(|m| m.to_string()).collect() }
}

fn tree_ws(num: i32, windows: Vec<TreeWindow>) -> TreeWorkspace {
    TreeWorkspace { num: Some(num), name: Some(num.to_string()), windows }
}

fn sway_with(workspaces: Vec<Workspace>) -> Sway {
    let mut sway = Sway::new();
    sway.update_workspaces(workspaces);
    sway
}

fn mapping() -> Mapping {
    let mut m = Mapping::new();
    m.insert("A".to_string(), vec![1, 2]);
    m.insert("B".to_string(), vec![3, 4]);
    m
}

#[test]
fn move_marks_then_moves() {
    let mut sway = sway_with(vec![ws(1, "1", "A", true, true)]);
    let args = Move { no_auto_back_and_forth: false, number: Some(4), name: None };
    assert_eq!(ws_move(&mut sway, &args).unwrap(), true);
    assert_eq!(
        sway.connection.commands().clone(),
        vec!["mark --add __ws_move__".to_string(), "move to workspace number 4".to_string()]
    );
}

#[test]
fn move_to_focused_workspace_without_toggle_is_skipped() {
    let mut sway = sway_with(vec![ws(1, "1", "A", true, true)]);
    let args = Move { no_auto_back_and_forth: true, number: Some(1), name: None };
    assert_eq!(ws_move(&mut sway, &args).unwrap(), false);
    assert!(sway.connection.commands().is_empty());
}

#[test]
fn sole_window_in_new_workspace_is_relocated() {
    // Workspace 4 was just created on A (the focused output) but belongs on B.
    let mut sway = sway_with(vec![
        ws(1, "1", "A", true, true),
        ws(3, "3", "B", false, true),
    ]);
    let tree = vec![
        TreeOutput {
            name: Some("A".to_string()),
            workspaces: vec![
                tree_ws(1, vec![window(&[])]),
                tree_ws(4, vec![window(&[WS_MOVE_MARKER])]),
            ],
        },
        TreeOutput { name: Some("B".to_string()), workspaces: vec![tree_ws(3, vec![window(&[])])] },
    ];
    let r = ws_move_finish(&mut sway, &tree, Ok(mapping()));
    assert!(r.is_ok());
    assert_eq!(
        sway.connection.commands().clone(),
        vec![
            "unmark __ws_move__".to_string(),
            "workspace --no-auto-back-and-forth number 4, move workspace to output 'B'".to_string(),
            "workspace 3".to_string(),
            "workspace 1".to_string(),
        ]
    );
}

#[test]
fn window_joining_others_is_not_relocated() {
    let mut sway = sway_with(vec![ws(1, "1", "A", true, true), ws(3, "3", "B", false, true)]);
    let tree = vec![TreeOutput {
        name: Some("A".to_string()),
        workspaces: vec![tree_ws(4, vec![window(&[]), window(&[WS_MOVE_MARKER])])],
    }];
    let r = ws_move_finish(&mut sway, &tree, Ok(mapping()));
    assert!(r.is_ok());
    assert_eq!(sway.connection.commands().clone(), vec!["unmark __ws_move__".to_string()]);
}

#[test]
fn new_workspace_on_its_own_output_stays() {
    let mut sway = sway_with(vec![ws(1, "1", "A", true, true)]);
    let tree = vec![TreeOutput {
        name: Some("A".to_string()),
        workspaces: vec![tree_ws(2, vec![window(&[WS_MOVE_MARKER])])],
    }];
    assert!(ws_move_finish(&mut sway, &tree, Ok(mapping())).is_ok());
    assert_eq!(sway.connection.commands().len(), 1);
}

#[test]
fn missing_mark_is_reported() {
    let mut sway = sway_with(vec![ws(1, "1", "A", true, true)]);
    let tree = vec![TreeOutput {
        name: Some("A".to_string()),
        workspaces: vec![tree_ws(1, vec![window(&["other"])])],
    }];
    let r = ws_move_finish(&mut sway, &tree, Ok(mapping()));
    assert!(matches!(r, Err(WsError::MarkNotFound)));
}

#[test]
fn nameless_workspace_node_is_reported() {
    let mut sway = sway_with(vec![ws(1, "1", "A", true, true)]);
    let tree = vec![TreeOutput {
        name: Some("A".to_string()),
        workspaces: vec![TreeWorkspace { num: Some(4), name: None, windows: vec![window(&[WS_MOVE_MARKER])] }],
    }];
    let r = ws_move_finish(&mut sway, &tree, Ok(mapping()));
    assert!(matches!(r, Err(WsError::UnexpectedTree)));
}
