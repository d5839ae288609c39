use swaytools::connection::Connection;
use swaytools::mapping::Mapping;
use swaytools::model::Workspace;
use swaytools::reconcile::move_workspaces;

fn ws(num: i32, output: &str, focused: bool) -> Workspace {
    Workspace { num, name: num.to_string(), output: output.to_string(), focused, visible: true }
}

#[test]
fn workspaces_go_to_their_outputs_and_focus_returns() {
    let mut m = Mapping::new();
    m.insert("A".to_string(), vec![1, 2]);
    m.insert("B".to_string(), vec![3]);
    let mut conn = Connection::new();
    let counts = move_workspaces(&m, &vec![ws(1, "B", true), ws(3, "A", false)], &mut conn);
    assert_eq!(counts, (2, 0));
    assert_eq!(
        conn.commands().clone(),
        vec![
            "workspace --no-auto-back-and-forth number 1, move workspace to output 'A'".to_string(),
            "workspace --no-auto-back-and-forth number 3, move workspace to output 'B'".to_string(),
            "workspace --no-auto-back-and-forth number 1".to_string(),
        ]
    );
}

#[test]
fn empty_output_gets_its_first_workspace() {
    let mut m = Mapping::new();
    m.insert("A".to_string(), vec![1]);
    m.insert("B".to_string(), vec![5, 6]);
    let mut conn = Connection::new();
    move_workspaces(&m, &vec![ws(1, "A", true)], &mut conn);
    assert_eq!(
        conn.commands().clone(),
        vec![
            "workspace --no-auto-back-and-forth number 5, move workspace to output 'B'".to_string(),
            "workspace --no-auto-back-and-forth number 1".to_string(),
        ]
    );
}

#[test]
fn nothing_to_do_without_workspaces_or_mapping() {
    let mut conn = Connection::new();
    move_workspaces(&Mapping::new(), &vec![], &mut conn);
    assert!(conn.commands().is_empty());
}

#[test]
fn empty_output_gets_its_lowest_number() {
    let mut m = Mapping::new();
    m.insert("A".to_string(), vec![1]);
    m.insert("B".to_string(), vec![6, 4, 5]);
    let mut conn = Connection::new();
    let counts = move_workspaces(&m, &vec![ws(1, "A", false)], &mut conn);
    assert_eq!(counts, (0, 1));
    assert_eq!(
        conn.commands().clone(),
        vec!["workspace --no-auto-back-and-forth number 4, move workspace to output 'B'".to_string()]
    );
}

#[test]
fn workspace_on_any_claiming_output_stays() {
    let mut m = Mapping::new();
    m.insert("A".to_string(), vec![1]);
    m.insert("B".to_string(), vec![1, 2]);
    let mut conn = Connection::new();
    let counts = move_workspaces(&m, &vec![ws(1, "B", true), ws(2, "B", false)], &mut conn);
    assert_eq!(counts, (0, 1));
    assert_eq!(
        conn.commands().clone(),
        vec![
            "workspace --no-auto-back-and-forth number 1, move workspace to output 'A'".to_string(),
            "workspace --no-auto-back-and-forth number 1".to_string(),
        ]
    );
}

#[test]
fn misplaced_workspace_goes_to_first_claimant_only() {
    let mut m = Mapping::new();
    m.insert("A".to_string(), vec![3]);
    m.insert("B".to_string(), vec![3]);
    let mut conn = Connection::new();
    let counts = move_workspaces(&m, &vec![ws(3, "C", false)], &mut conn);
    assert_eq!(counts.0, 1);
    assert_eq!(
        conn.commands()[0],
        "workspace --no-auto-back-and-forth number 3, move workspace to output 'A'"
    );
}
