use swaytools::connection::{assign_command, show_on_output_command, Connection};
use swaytools::model::WsError;

#[test]
fn command_texts() {
    let mut c = Connection::new();
    c.workspace(Some(3), Some("web")).unwrap();
    c.workspace(Some(-2), None).unwrap();
    c.workspace(None, Some("mail")).unwrap();
    c.move_to_workspace(Some(3), Some("web")).unwrap();
    c.move_to_workspace(Some(4), None).unwrap();
    c.move_to_workspace(None, Some("mail")).unwrap();
    c.move_workspace_to_output("VGA-1").unwrap();
    c.focus_output("VGA-1").unwrap();
    c.mark_add("m").unwrap();
    c.mark_remove("m").unwrap();
    c.mark_remove_all().unwrap();
    assert_eq!(
        c.commands().clone(),
        vec![
            "workspace number 3:web",
            "workspace number -2",
            "workspace mail",
            "move to workspace number 3:web",
            "move to workspace number 4",
            "move to workspace mail",
            "move workspace to output VGA-1",
            "focus output VGA-1",
            "mark --add m",
            "unmark m",
            "unmark",
        ]
        .into_iter()
        .map(|s| s.to_string())
        .collect::<Vec<String>>()
    );
    assert_eq!(assign_command(5, "B"), "[workspace=5] move workspace to 'B'");
    assert_eq!(
        show_on_output_command(5, "B"),
        "workspace --no-auto-back-and-forth number 5, move workspace to output 'B'"
    );
}

#[test]
fn neither_number_nor_name_is_an_error() {
    let mut c = Connection::new();
    assert!(matches!(c.workspace(None, None), Err(WsError::NeitherNumNorNameProvided)));
    assert!(matches!(c.move_to_workspace(None, None), Err(WsError::NeitherNumNorNameProvided)));
    assert!(c.commands().is_empty());
}
