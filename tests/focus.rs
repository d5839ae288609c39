use swaytools::mapping::Mapping;
use swaytools::model::{Output, Workspace, WsError};
use swaytools::reconcile::{ws_focus, Focus};
use swaytools::sway::Sway;

fn ws(num: i32, name: &str, output: &str, focused: bool) -> Workspace {
    Workspace {
        num,
        name: name.to_string(),
        output: output.to_string(),
        focused,
        visible: focused,
    }
}

fn out(name: &str, focused: bool) -> Output {
    Output {
        name: name.to_string(),
        make: "Dell".to_string(),
        model: "X2353".to_string(),
        serial: "0x2342".to_string(),
        focused,
    }
}

fn mapping(entries: &[(&str, &[i32])]) -> Mapping {
    let mut m = Mapping::new();
    for (o, nums) in entries {
        m.insert(o.to_string(), nums.to_vec());
    }
    m
}

fn focus(number: Option<i32>, name: Option<&str>, no_abf: bool) -> Focus {
    Focus {
        no_auto_back_and_forth: no_abf,
        number,
        name: name.map(|s| s.to_string()),
    }
}

fn run(workspaces: Vec<Workspace>, args: &Focus, m: Mapping, outputs: Vec<Output>) -> (Result<(), WsError>, Vec<String>) {
    let mut sway = Sway::new();
    sway.update_workspaces(workspaces);
    let r = ws_focus(&mut sway, args, Ok(m), Ok(outputs));
    (r, sway.connection.commands().clone())
}

#[test]
fn focused_workspace_without_toggle_issues_nothing() {
    let (r, cmds) = run(
        vec![ws(1, "1", "A", true), ws(2, "2", "B", false)],
        &focus(Some(1), None, true),
        mapping(&[("A", &[1])]),
        vec![out("A", true), out("B", false)],
    );
    assert!(r.is_ok());
    assert!(cmds.is_empty());
}

#[test]
fn focused_workspace_with_toggle_is_focused_plainly() {
    let (r, cmds) = run(
        vec![ws(1, "1", "A", true)],
        &focus(Some(1), None, false),
        Mapping::new(),
        vec![out("A", true)],
    );
    assert!(r.is_ok());
    assert_eq!(cmds, vec!["workspace number 1".to_string()]);
}

#[test]
fn new_workspace_is_created_on_mapped_output() {
    let (r, cmds) = run(
        vec![ws(1, "1", "A", true), ws(3, "3", "B", false)],
        &focus(Some(5), None, false),
        mapping(&[("A", &[1, 2]), ("B", &[3, 4, 5])]),
        vec![out("A", true), out("B", false)],
    );
    assert!(r.is_ok());
    assert_eq!(
        cmds,
        vec![
            "focus output B".to_string(),
            "workspace number 5".to_string(),
            "workspace 1".to_string(),
            "workspace number 5".to_string(),
        ]
    );
    assert_eq!(cmds.last().unwrap(), "workspace number 5");
}

#[test]
fn new_workspace_on_focused_output_is_focused_plainly() {
    let (r, cmds) = run(
        vec![ws(1, "1", "A", true)],
        &focus(Some(2), Some("mail"), false),
        mapping(&[("A", &[1, 2])]),
        vec![out("A", true), out("B", false)],
    );
    assert!(r.is_ok());
    assert_eq!(cmds, vec!["workspace number 2:mail".to_string()]);
}

#[test]
fn unmapped_new_workspace_is_focused_plainly() {
    let (r, cmds) = run(
        vec![ws(1, "1", "A", true)],
        &focus(Some(9), None, false),
        mapping(&[("B", &[3])]),
        vec![out("A", true), out("B", false)],
    );
    assert!(r.is_ok());
    assert_eq!(cmds, vec!["workspace number 9".to_string()]);
}

#[test]
fn new_named_workspace_is_focused_by_name() {
    let (r, cmds) = run(
        vec![ws(1, "1", "A", true)],
        &focus(None, Some("mail"), false),
        Mapping::new(),
        vec![out("A", true)],
    );
    assert!(r.is_ok());
    assert_eq!(cmds, vec!["workspace mail".to_string()]);
}

#[test]
fn second_focus_of_placed_workspace_issues_no_correction() {
    // After the first run the workspace exists on its output and is focused.
    let (r, cmds) = run(
        vec![ws(1, "1", "A", false), ws(5, "5", "B", true)],
        &focus(Some(5), None, true),
        mapping(&[("A", &[1]), ("B", &[5])]),
        vec![out("A", false), out("B", true)],
    );
    assert!(r.is_ok());
    assert!(cmds.is_empty());
}

#[test]
fn no_focused_workspace_is_an_error() {
    let (r, cmds) = run(
        vec![ws(1, "1", "A", false)],
        &focus(Some(1), None, false),
        Mapping::new(),
        vec![out("A", true)],
    );
    assert!(matches!(r, Err(WsError::NoFocusedWorkspace)));
    assert!(cmds.is_empty());
}

#[test]
fn no_focused_output_is_an_error() {
    let (r, _) = run(
        vec![ws(1, "1", "A", true)],
        &focus(Some(3), None, false),
        mapping(&[("B", &[3])]),
        vec![out("A", false), out("B", false)],
    );
    assert!(matches!(r, Err(WsError::NoFocusedOutput)));
}

#[test]
fn missing_snapshot_is_an_error() {
    let mut sway = Sway::new();
    let r = ws_focus(&mut sway, &focus(Some(1), None, false), Ok(Mapping::new()), Ok(vec![]));
    assert!(matches!(r, Err(WsError::NoWorkspaces)));
}

#[test]
fn mapping_error_matters_only_for_new_workspaces() {
    let mut sway = Sway::new();
    sway.update_workspaces(vec![ws(1, "1", "A", true)]);
    let r = ws_focus(&mut sway, &focus(Some(1), None, false), Err(WsError::MarkNotFound), Ok(vec![]));
    assert!(r.is_ok());
    let r = ws_focus(&mut sway, &focus(Some(4), None, false), Err(WsError::MarkNotFound), Ok(vec![]));
    assert!(matches!(r, Err(WsError::MarkNotFound)));
}
