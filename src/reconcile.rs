//! The placement decisions: focusing a workspace, moving a window to one,
//! recording a mapping, and moving every workspace to its mapped output.
use vstd::prelude::*;
use crate::connection::{
    select_workspace_text,
    first_marked, focus_output_text, focus_target_text, in_tree, mark_add_text, mark_remove_text,
    move_target_text, opt_view, show_on_output_text, workspace_marked, workspace_name_text,
    Connection,
};
use crate::mapping::{first_claimant, mapping_json, Mapping};
use crate::model::{
    first_where, lemma_first_where_found, lemma_first_where_none, Output, TreeOutput, TreeWorkspace,
    Workspace, WsError,
};
use crate::sway::{out_focused, out_matches, ws_focused, ws_matches, ws_visible_on, Sway};

verus! {

/// The view of an optional owned text.
pub open spec fn name_view(n: Option<String>) -> Option<Seq<char>> {
    match n {
        Some(s) => Some(s@),
        None => None,
    }
}

/// A request to focus a workspace, by number and/or name.
pub struct Focus {
    pub no_auto_back_and_forth: bool,
    pub number: Option<i32>,
    pub name: Option<String>,
}

/// The commands that create the workspace numbered `n`, not existing yet, on
/// the output that the mapping puts it on; `target` focuses it and `focused`
/// is the name of the focused workspace.
pub open spec fn placement_outcome(
    n: i32,
    target: Seq<char>,
    focused: Seq<char>,
    m: Mapping,
    outs: Seq<Output>,
) -> Result<Seq<Seq<char>>, WsError> {
    match first_claimant(m.spec_entries(), n) {
        None => Ok(seq![target]),
        Some(i) => match first_where(outs, out_focused()) {
            None => Err(WsError::NoFocusedOutput),
            Some(fo) => if outs[fo].name@ == m.spec_entries()[i].0@ {
                Ok(seq![target])
            } else {
                Ok(
                    seq![
                        focus_output_text(m.spec_entries()[i].0@),
                        target,
                        workspace_name_text(focused),
                        target,
                    ],
                )
            },
        },
    }
}

/// The commands that focusing the workspace of `args` issues, given the
/// workspace snapshot `ws`, the mapping as it was loaded and the output
/// snapshot as it was taken; or the error it ends with.
pub open spec fn focus_outcome(
    ws: Seq<Workspace>,
    args: Focus,
    mapping: Result<Mapping, WsError>,
    outputs: Result<Vec<Output>, WsError>,
) -> Result<Seq<Seq<char>>, WsError> {
    let name = name_view(args.name);
    let target = focus_target_text(args.number, name)->Some_0;
    match first_where(ws, ws_focused()) {
        None => Err(WsError::NoFocusedWorkspace),
        Some(f) => match first_where(ws, ws_matches(args.number, name)) {
            Some(t) => if ws[t].num == ws[f].num && ws[t].name@ == ws[f].name@
                && args.no_auto_back_and_forth {
                Ok(Seq::empty())
            } else {
                Ok(seq![target])
            },
            None => match args.number {
                None => Ok(seq![workspace_name_text(name->Some_0)]),
                Some(n) => match mapping {
                    Err(e) => Err(e),
                    Ok(m) => match outputs {
                        Err(e) => Err(e),
                        Ok(outs) => placement_outcome(n, target, ws[f].name@, m, outs@),
                    },
                },
            },
        },
    }
}

fn opt_str(n: &Option<String>) -> (r: Option<&str>)
    ensures
        opt_view(r) == name_view(*n),
{
    match n {
        Some(s) => Some(s.as_str()),
        None => None,
    }
}

/// Focuses the workspace of `args`. A workspace that exists is focused
/// plainly (which lets the compositor toggle back and forth, unless that is
/// turned off and the workspace is the focused one: then nothing is done).
/// A numbered workspace that does not exist yet and that the mapping puts on
/// an output other than the focused one is created there: focus that output,
/// focus the workspace, focus the workspace that was focused, and focus the
/// workspace again. `mapping` and `outputs` are consulted only then.
#[verifier::rlimit(30)]
pub fn ws_focus(
    sway: &mut Sway,
    args: &Focus,
    mapping: Result<Mapping, WsError>,
    outputs: Result<Vec<Output>, WsError>,
) -> (r: Result<(), WsError>)
    requires
        args.number is Some || args.name is Some,
        mapping is Ok ==> mapping->Ok_0.wf(),
    ensures
        final(sway).spec_workspaces() == old(sway).spec_workspaces(),
        match old(sway).spec_workspaces() {
            None => r == Err::<(), WsError>(WsError::NoWorkspaces) && final(sway).connection@ == old(
                sway,
            ).connection@,
            Some(ws) => match focus_outcome(ws, *args, mapping, outputs) {
                Ok(cmds) => r is Ok && final(sway).connection@ == old(sway).connection@ + cmds,
                Err(e) => r == Err::<(), WsError>(e) && final(sway).connection@ == old(
                    sway,
                ).connection@,
            },
        },
{
    let name = opt_str(&args.name);
    let ghost target = focus_target_text(args.number, name_view(args.name))->Some_0;
    let ghost c0 = sway.connection@;
    let (target_exists, target_is_focused, focused_name) = {
        if sway.workspaces.is_none() {
            return Err(WsError::NoWorkspaces);
        }
        let target = sway.workspace_by_num_or_name(args.number, name);
        let focused = match sway.focused_workspace() {
            Some(f) => f,
            None => {
                return Err(WsError::NoFocusedWorkspace);
            },
        };
        match target {
            Some(t) => (true, t.num == focused.num && t.name == focused.name, focused.name.clone()),
            None => (false, false, focused.name.clone()),
        }
    };
    if target_exists {
        if target_is_focused && args.no_auto_back_and_forth {
            proof {
                assert(sway.connection@ =~= c0 + Seq::<Seq<char>>::empty());
            }
            return Ok(());
        }
        let r = sway.connection.workspace(args.number, name);
        proof {
            assert(sway.connection@ =~= c0 + seq![target]);
        }
        return r;
    }
    let number = match args.number {
        None => {
            let r = sway.connection.workspace_name(name.unwrap());
            proof {
                assert(sway.connection@ =~= c0 + seq![workspace_name_text(name_view(args.name)->Some_0)]);
            }
            return r;
        },
        Some(n) => n,
    };
    let m = match mapping {
        Ok(m) => m,
        Err(e) => {
            return Err(e);
        },
    };
    let outs = match outputs {
        Ok(o) => o,
        Err(e) => {
            return Err(e);
        },
    };
    let r = place_workspace(&mut sway.connection, number, name, focused_name.as_str(), &m, &outs);
    sway.mapping = m;
    sway.update_outputs(outs);
    r
}

/// Focuses the numbered workspace, by its name too when one is given.
fn focus_numbered(conn: &mut Connection, number: i32, name: Option<&str>)
    ensures
        final(conn)@ == old(conn)@.push(focus_target_text(Some(number), opt_view(name))->Some_0),
{
    let _ = conn.workspace(Some(number), name);
}

/// Creates the numbered workspace on `output`, then restores the focus
/// history: focus the output, the workspace, the workspace named `focused`,
/// and the workspace again.
fn create_on_output(conn: &mut Connection, number: i32, name: Option<&str>, output: &str, focused: &str)
    ensures
        ({
            let target = focus_target_text(Some(number), opt_view(name))->Some_0;
            final(conn)@ == old(conn)@ + seq![
                focus_output_text(output@),
                target,
                workspace_name_text(focused@),
                target,
            ]
        }),
{
    let _ = conn.focus_output(output);
    focus_numbered(conn, number, name);
    let _ = conn.workspace_name(focused);
    focus_numbered(conn, number, name);
    proof {
        let target = focus_target_text(Some(number), opt_view(name))->Some_0;
        assert(conn@ =~= old(conn)@ + seq![
            focus_output_text(output@),
            target,
            workspace_name_text(focused@),
            target,
        ]);
    }
}

/// Issues the commands of `placement_outcome`.
#[verifier::rlimit(30)]
fn place_workspace(
    conn: &mut Connection,
    number: i32,
    name: Option<&str>,
    focused: &str,
    m: &Mapping,
    outs: &Vec<Output>,
) -> (r: Result<(), WsError>)
    requires
        m.wf(),
    ensures
        match placement_outcome(
            number,
            focus_target_text(Some(number), opt_view(name))->Some_0,
            focused@,
            *m,
            outs@,
        ) {
            Ok(cmds) => r is Ok && final(conn)@ == old(conn)@ + cmds,
            Err(e) => r == Err::<(), WsError>(e) && final(conn)@ == old(conn)@,
        },
{
    let ghost target = focus_target_text(Some(number), opt_view(name))->Some_0;
    let ghost c0 = conn@;
    let claimant = m.claimant(number);
    let i = match claimant {
        None => {
            focus_numbered(conn, number, name);
            proof {
                assert(conn@ =~= c0 + seq![target]);
            }
            return Ok(());
        },
        Some(i) => i,
    };
    let output = &m.entries()[i].0;
    let fo = match crate::sway::find_focused_output(outs) {
        Some(o) => o,
        None => {
            return Err(WsError::NoFocusedOutput);
        },
    };
    proof {
        let k = first_where(outs@, out_focused())->Some_0;
        assert(*fo == outs@[k]);
        assert(*output == m.spec_entries()[i as int].0);
    }
    if crate::text::same_text(fo.name.as_str(), output.as_str()) {
        focus_numbered(conn, number, name);
        proof {
            assert(conn@ =~= c0 + seq![target]);
        }
        return Ok(());
    }
    create_on_output(conn, number, name, output.as_str(), focused);
    Ok(())
}

/// Focusing the workspace that is already focused, with the back-and-forth
/// toggle turned off, issues no command at all.
pub proof fn lemma_focus_focused_is_noop(
    ws: Seq<Workspace>,
    args: Focus,
    mapping: Result<Mapping, WsError>,
    outputs: Result<Vec<Output>, WsError>,
    f: int,
)
    requires
        args.no_auto_back_and_forth,
        first_where(ws, ws_focused()) == Some(f),
        first_where(ws, ws_matches(args.number, name_view(args.name))) == Some(f),
    ensures
        focus_outcome(ws, args, mapping, outputs) == Ok::<Seq<Seq<char>>, WsError>(Seq::empty()),
{
}

/// Focusing a numbered workspace that does not exist yet, which the mapping
/// puts on output `O` while another output is focused, issues exactly: focus
/// `O`, focus the workspace, focus the workspace that was focused, focus the
/// workspace again. The last command leaves the new workspace focused.
pub proof fn lemma_focus_creates_on_mapped_output(
    ws: Seq<Workspace>,
    args: Focus,
    m: Mapping,
    outs: Vec<Output>,
    n: i32,
    f: int,
    i: int,
    fo: int,
)
    requires
        args.number == Some(n),
        first_where(ws, ws_matches(args.number, name_view(args.name))) is None,
        first_where(ws, ws_focused()) == Some(f),
        first_claimant(m.spec_entries(), n) == Some(i),
        first_where(outs@, out_focused()) == Some(fo),
        outs@[fo].name@ != m.spec_entries()[i].0@,
    ensures
        ({
            let target = focus_target_text(args.number, name_view(args.name))->Some_0;
            &&& focus_outcome(ws, args, Ok(m), Ok(outs)) == Ok::<Seq<Seq<char>>, WsError>(
                seq![
                    focus_output_text(m.spec_entries()[i].0@),
                    target,
                    workspace_name_text(ws[f].name@),
                    target,
                ],
            )
            &&& focus_outcome(ws, args, Ok(m), Ok(outs))->Ok_0.last() == target
        }),
{
}

/// Once the workspace exists, focusing it issues no corrective commands: at
/// most the plain command that focuses it, and nothing when it is the
/// focused workspace and the back-and-forth toggle is turned off.
pub proof fn lemma_focus_existing_is_plain(
    ws: Seq<Workspace>,
    args: Focus,
    mapping: Result<Mapping, WsError>,
    outputs: Result<Vec<Output>, WsError>,
)
    requires
        args.number is Some || args.name is Some,
        first_where(ws, ws_matches(args.number, name_view(args.name))) is Some,
        first_where(ws, ws_focused()) is Some,
    ensures
        focus_outcome(ws, args, mapping, outputs) is Ok,
        focus_outcome(ws, args, mapping, outputs)->Ok_0.len() <= 1,
        focus_outcome(ws, args, mapping, outputs)->Ok_0.len() == 1 ==> focus_outcome(
            ws,
            args,
            mapping,
            outputs,
        )->Ok_0[0] == focus_target_text(args.number, name_view(args.name))->Some_0,
        first_where(ws, ws_matches(args.number, name_view(args.name))) == first_where(
            ws,
            ws_focused(),
        ) && args.no_auto_back_and_forth ==> focus_outcome(ws, args, mapping, outputs)->Ok_0.len()
            == 0,
{
}

/// The mark that tags the window being moved.
pub const WS_MOVE_MARKER: &'static str = "__ws_move__";

/// A request to move the focused window to a workspace, by number and/or name.
pub struct Move {
    pub no_auto_back_and_forth: bool,
    pub number: Option<i32>,
    pub name: Option<String>,
}

/// Whether moving is skipped: the back-and-forth toggle is turned off and
/// the target is the focused workspace. `None` when the snapshot does not
/// say (no focused workspace).
pub open spec fn move_skipped(ws: Seq<Workspace>, args: Move) -> Option<bool> {
    match first_where(ws, ws_focused()) {
        None => None,
        Some(f) => Some(
            match first_where(ws, ws_matches(args.number, name_view(args.name))) {
                Some(t) => ws[t].num == ws[f].num && ws[t].name@ == ws[f].name@,
                None => false,
            },
        ),
    }
}

/// Starts moving the focused window to the workspace of `args`: marks the
/// window, then moves it. Returns whether it did so; it does nothing when
/// the back-and-forth toggle is turned off and the target is the focused
/// workspace. Where the window landed is learned from the tree afterwards,
/// by `ws_move_finish`.
#[verifier::rlimit(30)]
pub fn ws_move(sway: &mut Sway, args: &Move) -> (r: Result<bool, WsError>)
    requires
        args.number is Some || args.name is Some,
    ensures
        final(sway).spec_workspaces() == old(sway).spec_workspaces(),
        ({
            let moved = old(sway).connection@ + seq![
                mark_add_text(WS_MOVE_MARKER@),
                move_target_text(args.number, name_view(args.name))->Some_0,
            ];
            if !args.no_auto_back_and_forth {
                r == Ok::<bool, WsError>(true) && final(sway).connection@ == moved
            } else {
                match old(sway).spec_workspaces() {
                    None => r == Err::<bool, WsError>(WsError::NoWorkspaces)
                        && final(sway).connection@ == old(sway).connection@,
                    Some(ws) => match move_skipped(ws, *args) {
                        None => r == Err::<bool, WsError>(WsError::NoFocusedWorkspace)
                            && final(sway).connection@ == old(sway).connection@,
                        Some(true) => r == Ok::<bool, WsError>(false) && final(sway).connection@
                            == old(sway).connection@,
                        Some(false) => r == Ok::<bool, WsError>(true) && final(sway).connection@
                            == moved,
                    },
                }
            }
        }),
{
    let name = opt_str(&args.name);
    let ghost c0 = sway.connection@;
    if args.no_auto_back_and_forth {
        let skip = {
            if sway.workspaces.is_none() {
                return Err(WsError::NoWorkspaces);
            }
            let target = sway.workspace_by_num_or_name(args.number, name);
            let focused = match sway.focused_workspace() {
                Some(f) => f,
                None => {
                    return Err(WsError::NoFocusedWorkspace);
                },
            };
            match target {
                Some(t) => t.num == focused.num && t.name == focused.name,
                None => false,
            }
        };
        if skip {
            return Ok(false);
        }
    }
    let _ = sway.connection.mark_add(WS_MOVE_MARKER);
    let _ = sway.connection.move_to_workspace(args.number, name);
    proof {
        assert(sway.connection@ =~= c0 + seq![
            mark_add_text(WS_MOVE_MARKER@),
            move_target_text(args.number, name_view(args.name))->Some_0,
        ]);
    }
    Ok(true)
}

/// The entry claims workspace `num` for an output other than `landed`.
pub open spec fn claims_elsewhere(num: i32, landed: Seq<char>) -> spec_fn((String, Vec<i32>)) -> bool {
    |e: (String, Vec<i32>)| e.1@.contains(num) && e.0@ != landed
}

/// The commands that follow the removal of the mark once the moved window
/// was found in workspace `wsn` of output `out`; or the error it ends with.
pub open spec fn relocation_outcome(
    out: TreeOutput,
    wsn: TreeWorkspace,
    mapping: Result<Mapping, WsError>,
    snapshot: Option<Seq<Workspace>>,
) -> Result<Seq<Seq<char>>, WsError> {
    if wsn.num is None || wsn.name is None || out.name is None {
        Err(WsError::UnexpectedTree)
    } else {
        relocation_after(wsn.num->Some_0, wsn.windows@.len(), out.name->Some_0@, mapping, snapshot)
    }
}

/// The commands that follow once the moved window is known to be in
/// workspace `num`, which holds `windows` windows and is shown on `landed`.
/// A new workspace (its only window is the moved one) that the mapping puts
/// on another output is moved there: select it and move it to that output,
/// show again the workspace that was shown there, and focus the workspace
/// that was focused.
pub open spec fn relocation_after(
    num: i32,
    windows: nat,
    landed: Seq<char>,
    mapping: Result<Mapping, WsError>,
    snapshot: Option<Seq<Workspace>>,
) -> Result<Seq<Seq<char>>, WsError> {
    if windows > 1 || num < 0 {
        Ok(Seq::empty())
    } else {
        match mapping {
            Err(e) => Err(e),
            Ok(m) => match first_where(m.spec_entries(), claims_elsewhere(num, landed)) {
                None => Ok(Seq::empty()),
                Some(i) => {
                    let target = m.spec_entries()[i].0@;
                    match relocation_names(snapshot, target) {
                        Err(e) => Err(e),
                        Ok((f, v)) => Ok(
                            seq![show_on_output_text(num, target)] + match v {
                                Some(name) => seq![workspace_name_text(name)],
                                None => Seq::empty(),
                            } + seq![workspace_name_text(f)],
                        ),
                    }
                },
            },
        }
    }
}

fn claiming_elsewhere(m: &Mapping, num: i32, landed: &str) -> (r: Option<usize>)
    ensures
        r is Some <==> first_where(m.spec_entries(), claims_elsewhere(num, landed@)) is Some,
        r is Some ==> first_where(m.spec_entries(), claims_elsewhere(num, landed@)) == Some(
            r->Some_0 as int,
        ) && r->Some_0 < m.spec_entries().len(),
{
    let es = m.entries();
    let mut i: usize = 0;
    while i < es.len()
        invariant
            i <= es@.len(),
            es@ == m.spec_entries(),
            forall|j: int| 0 <= j < i ==> !claims_elsewhere(num, landed@)(#[trigger] es@[j]),
        decreases es.len() - i,
    {
        if crate::mapping::contains_num(&es[i].1, num) && !crate::text::same_text(
            es[i].0.as_str(),
            landed,
        ) {
            proof {
                lemma_first_where_found(es@, claims_elsewhere(num, landed@), i as int);
            }
            return Some(i);
        }
        i = i + 1;
    }
    proof {
        lemma_first_where_none(es@, claims_elsewhere(num, landed@));
    }
    None
}

/// Finishes a move: removes the mark, finds in `tree` the workspace where
/// the marked window landed and, when that workspace is new and the
/// mapping puts its number on another output, moves it there while keeping
/// what is shown and focused elsewhere. `mapping` is consulted only then.
#[verifier::rlimit(30)]
pub fn ws_move_finish(
    sway: &mut Sway,
    tree: &Vec<TreeOutput>,
    mapping: Result<Mapping, WsError>,
) -> (r: Result<(), WsError>)
    requires
        mapping is Ok ==> mapping->Ok_0.wf(),
    ensures
        final(sway).spec_workspaces() == old(sway).spec_workspaces(),
        (forall|o: int, w: int|
            #![trigger tree@[o].workspaces@[w]]
            in_tree(tree@, o, w) ==> !workspace_marked(tree@[o].workspaces@[w], WS_MOVE_MARKER@))
            ==> r == Err::<(), WsError>(WsError::MarkNotFound) && final(sway).connection@ == old(
            sway,
        ).connection@.push(mark_remove_text(WS_MOVE_MARKER@)),
        forall|o: int, w: int|
            #![trigger tree@[o].workspaces@[w]]
            first_marked(tree@, WS_MOVE_MARKER@, o, w) ==> match relocation_outcome(
                tree@[o],
                tree@[o].workspaces@[w],
                mapping,
                old(sway).spec_workspaces(),
            ) {
                Ok(cmds) => r is Ok && final(sway).connection@ == old(sway).connection@.push(
                    mark_remove_text(WS_MOVE_MARKER@),
                ) + cmds,
                Err(e) => r == Err::<(), WsError>(e) && final(sway).connection@ == old(
                    sway,
                ).connection@.push(mark_remove_text(WS_MOVE_MARKER@)),
            },
{
    let _ = sway.connection.mark_remove(WS_MOVE_MARKER);
    let ghost c1 = sway.connection@;
    let found = sway.connection.get_workspace_with_mark(tree, WS_MOVE_MARKER);
    let (num, windows, landed) = match found {
        Ok(f) => (f.0, f.2, f.3),
        Err(e) => {
            proof {
                assert forall|o: int, w: int|
                    #![trigger tree@[o].workspaces@[w]]
                    first_marked(tree@, WS_MOVE_MARKER@, o, w) implies relocation_outcome(
                    tree@[o],
                    tree@[o].workspaces@[w],
                    mapping,
                    old(sway).spec_workspaces(),
                ) == Err::<Seq<Seq<char>>, WsError>(e) by {}
            }
            return Err(e);
        },
    };
    let r = relocate(sway, num, windows, landed.as_str(), mapping);
    proof {
        assert forall|o: int, w: int|
            #![trigger tree@[o].workspaces@[w]]
            first_marked(tree@, WS_MOVE_MARKER@, o, w) implies relocation_outcome(
            tree@[o],
            tree@[o].workspaces@[w],
            mapping,
            old(sway).spec_workspaces(),
        ) == relocation_after(num, windows as nat, landed@, mapping, old(sway).spec_workspaces()) by {}
    }
    r
}

/// The command that shows again the workspace that was shown, if any.
pub open spec fn shown_commands(shown: Option<String>) -> Seq<Seq<char>> {
    match shown {
        Some(v) => seq![workspace_name_text(v@)],
        None => Seq::empty(),
    }
}

fn issue_relocation(
    conn: &mut Connection,
    num: i32,
    target: &str,
    shown: &Option<String>,
    focused: &str,
)
    ensures
        final(conn)@ == old(conn)@ + (seq![show_on_output_text(num, target@)] + shown_commands(
            *shown,
        ) + seq![workspace_name_text(focused@)]),
{
    conn.run(crate::connection::show_on_output_command(num, target));
    match shown {
        Some(v) => {
            let _ = conn.workspace_name(v.as_str());
        },
        None => {},
    }
    let _ = conn.workspace_name(focused);
    proof {
        assert(conn@ =~= old(conn)@ + (seq![show_on_output_text(num, target@)] + shown_commands(
            *shown,
        ) + seq![workspace_name_text(focused@)]));
    }
}

/// What relocating a workspace to `target` needs of the snapshot: the name
/// of the focused workspace, and that of the workspace shown on `target`.
pub open spec fn relocation_names(snapshot: Option<Seq<Workspace>>, target: Seq<char>) -> Result<
    (Seq<char>, Option<Seq<char>>),
    WsError,
> {
    match snapshot {
        None => Err(WsError::NoWorkspaces),
        Some(ws) => match first_where(ws, ws_focused()) {
            None => Err(WsError::NoFocusedWorkspace),
            Some(f) => Ok(
                (
                    ws[f].name@,
                    match first_where(ws, ws_visible_on(target)) {
                        Some(v) => Some(ws[v].name@),
                        None => None,
                    },
                ),
            ),
        },
    }
}

fn relocation_names_of(sway: &Sway, target: &str) -> (r: Result<(String, Option<String>), WsError>)
    ensures
        match relocation_names(sway.spec_workspaces(), target@) {
            Ok((f, v)) => r is Ok && r->Ok_0.0@ == f && name_view(r->Ok_0.1) == v,
            Err(e) => r == Err::<(String, Option<String>), WsError>(e),
        },
{
    let focused_name = match sway.workspaces() {
        None => {
            return Err(WsError::NoWorkspaces);
        },
        Some(_) => match sway.focused_workspace() {
            Some(f) => f.name.clone(),
            None => {
                return Err(WsError::NoFocusedWorkspace);
            },
        },
    };
    let shown_name = match sway.visible_workspace_on(target) {
        Some(v) => Some(v.name.clone()),
        None => None,
    };
    Ok((focused_name, shown_name))
}

/// Issues the commands of `relocation_after`.
#[verifier::rlimit(30)]
fn relocate(
    sway: &mut Sway,
    num: i32,
    windows: usize,
    landed: &str,
    mapping: Result<Mapping, WsError>,
) -> (r: Result<(), WsError>)
    requires
        mapping is Ok ==> mapping->Ok_0.wf(),
    ensures
        final(sway).spec_workspaces() == old(sway).spec_workspaces(),
        match relocation_after(num, windows as nat, landed@, mapping, old(sway).spec_workspaces()) {
            Ok(cmds) => r is Ok && final(sway).connection@ == old(sway).connection@ + cmds,
            Err(e) => r == Err::<(), WsError>(e) && final(sway).connection@ == old(sway).connection@,
        },
{
    let ghost c1 = sway.connection@;
    if windows > 1 || num < 0 {
        proof {
            assert(c1 =~= c1 + Seq::<Seq<char>>::empty());
        }
        return Ok(());
    }
    let m = match mapping {
        Ok(m) => m,
        Err(e) => {
            return Err(e);
        },
    };
    let i = match claiming_elsewhere(&m, num, landed) {
        Some(i) => i,
        None => {
            proof {
                assert(c1 =~= c1 + Seq::<Seq<char>>::empty());
            }
            return Ok(());
        },
    };
    let target = &m.entries()[i].0;
    let (focused_name, shown_name) = match relocation_names_of(sway, target.as_str()) {
        Ok(names) => names,
        Err(e) => {
            return Err(e);
        },
    };
    issue_relocation(&mut sway.connection, num, target.as_str(), &shown_name, focused_name.as_str());
    Ok(())
}

/// A window moved alone into a new workspace whose number the mapping puts
/// on another output is relocated: the first command after the mark is
/// removed moves that workspace to the mapped output.
pub proof fn lemma_move_relocates_new_workspace(
    num: i32,
    landed: Seq<char>,
    m: Mapping,
    ws: Seq<Workspace>,
    i: int,
)
    requires
        num >= 0,
        first_where(m.spec_entries(), claims_elsewhere(num, landed)) == Some(i),
        first_where(ws, ws_focused()) is Some,
    ensures
        relocation_after(num, 1, landed, Ok(m), Some(ws)) is Ok,
        relocation_after(num, 1, landed, Ok(m), Some(ws))->Ok_0.len() >= 2,
        relocation_after(num, 1, landed, Ok(m), Some(ws))->Ok_0[0] == show_on_output_text(
            num,
            m.spec_entries()[i].0@,
        ),
{
}

/// A window moved into a workspace that holds other windows causes no
/// relocation, whatever the mapping says.
pub proof fn lemma_move_into_occupied_is_left(
    num: i32,
    windows: nat,
    landed: Seq<char>,
    mapping: Result<Mapping, WsError>,
    snapshot: Option<Seq<Workspace>>,
)
    requires
        windows > 1,
    ensures
        relocation_after(num, windows, landed, mapping, snapshot) == Ok::<Seq<Seq<char>>, WsError>(
            Seq::empty(),
        ),
{
}

/// A request to record mappings: each entry is an output (a name or a
/// descriptor) and its workspace numbers.
pub struct MapArgs {
    pub maps: Vec<(String, Vec<i32>)>,
}

/// The mapping after the tokens `maps` are applied in order to `m`: a token
/// whose output is in the snapshot `outs` replaces that output's numbers;
/// other tokens are skipped.
pub open spec fn map_fold(
    m: Map<Seq<char>, Seq<i32>>,
    outs: Option<Seq<Output>>,
    maps: Seq<(String, Vec<i32>)>,
) -> Map<Seq<char>, Seq<i32>>
    decreases maps.len(),
{
    if maps.len() == 0 {
        m
    } else {
        let prev = map_fold(m, outs, maps.drop_last());
        match outs {
            None => prev,
            Some(os) => match first_where(
                os,
                out_matches(Some(maps.last().0@), Some(maps.last().0@)),
            ) {
                Some(k) => prev.insert(os[k].name@, maps.last().1@),
                None => prev,
            },
        }
    }
}

fn copy_nums(v: &Vec<i32>) -> (r: Vec<i32>)
    ensures
        r@ == v@,
{
    let mut r: Vec<i32> = Vec::new();
    let mut i: usize = 0;
    while i < v.len()
        invariant
            i <= v.len(),
            r@ == v@.subrange(0, i as int),
        decreases v.len() - i,
    {
        r.push(v[i]);
        proof {
            assert(r@ =~= v@.subrange(0, i + 1));
        }
        i = i + 1;
    }
    proof {
        assert(r@ =~= v@);
    }
    r
}

/// Records the mappings of `args` (later tokens for one output replace
/// earlier ones) and returns the JSON text of the whole mapping, to be saved.
pub fn ws_map(sway: &mut Sway, args: &MapArgs) -> (r: Result<String, WsError>)
    requires
        old(sway).mapping.wf(),
    ensures
        final(sway).mapping.wf(),
        final(sway).mapping@ == map_fold(old(sway).mapping@, old(sway).spec_outputs(), args.maps@),
        r is Ok,
        r->Ok_0@ == mapping_json(final(sway).mapping@),
        final(sway).connection == old(sway).connection,
{
    let mut i: usize = 0;
    while i < args.maps.len()
        invariant
            i <= args.maps@.len(),
            sway.mapping.wf(),
            sway.spec_outputs() == old(sway).spec_outputs(),
            sway.connection == old(sway).connection,
            sway.mapping@ == map_fold(old(sway).mapping@, old(sway).spec_outputs(), args.maps@.subrange(0, i as int)),
        decreases args.maps.len() - i,
    {
        let token = &args.maps[i];
        let ghost done = args.maps@.subrange(0, i + 1);
        proof {
            assert(done.drop_last() =~= args.maps@.subrange(0, i as int));
            assert(done.last() == args.maps@[i as int]);
        }
        let found = match sway.outputs() {
            Some(_) => match sway.output_by_name_or_identifier(Some(token.0.as_str()), Some(token.0.as_str())) {
                Some(o) => Some(o.name.clone()),
                None => None,
            },
            None => None,
        };
        match found {
            Some(name) => {
                sway.mapping.insert(name, copy_nums(&token.1));
            },
            None => {},
        }
        i = i + 1;
    }
    proof {
        assert(args.maps@.subrange(0, args.maps@.len() as int) =~= args.maps@);
    }
    sway.save_mapping()
}

/// Mapping the same output twice in one request: the later token fully
/// replaces the earlier one, nothing of the earlier numbers stays.
pub proof fn lemma_map_later_token_wins(
    m: Map<Seq<char>, Seq<i32>>,
    outs: Seq<Output>,
    first: (String, Vec<i32>),
    second: (String, Vec<i32>),
    k: int,
)
    requires
        first.0@ == second.0@,
        first_where(outs, out_matches(Some(first.0@), Some(first.0@))) == Some(k),
    ensures
        map_fold(m, Some(outs), seq![first, second]) == m.insert(outs[k].name@, second.1@),
{
    let both = seq![first, second];
    assert(both.drop_last() =~= seq![first]);
    assert(seq![first].drop_last() =~= Seq::<(String, Vec<i32>)>::empty());
    assert(map_fold(m, Some(outs), Seq::<(String, Vec<i32>)>::empty()) == m);
    assert(both.last() == second);
    assert(seq![first].last() == first);
    assert(map_fold(m, Some(outs), seq![first]) == m.insert(outs[k].name@, first.1@));
    assert(m.insert(outs[k].name@, first.1@).insert(outs[k].name@, second.1@) =~= m.insert(
        outs[k].name@,
        second.1@,
    ));
}

/// The output that shows `w` is among the outputs that claim its number.
#[verifier::opaque]
pub open spec fn on_claimant(es: Seq<(String, Vec<i32>)>, w: Workspace) -> bool {
    exists|k: int| 0 <= k < es.len() && (#[trigger] es[k]).1@.contains(w.num) && es[k].0@ == w.output@
}

/// Entry `k` receives workspace `w` in the pass: `w` stays on its output when
/// that output claims its number, and otherwise goes to the first output that
/// claims it.
#[verifier::opaque]
pub open spec fn reached(es: Seq<(String, Vec<i32>)>, k: int, w: Workspace) -> bool {
    &&& 0 <= k < es.len()
    &&& es[k].1@.contains(w.num)
    &&& if on_claimant(es, w) {
        es[k].0@ == w.output@
    } else {
        first_claimant(es, w.num) == Some(k)
    }
}

/// The command that moves `w` to the first output that claims its number,
/// unless the output that shows it claims it too.
pub open spec fn corrections(es: Seq<(String, Vec<i32>)>, w: Workspace) -> Seq<Seq<char>> {
    if on_claimant(es, w) {
        Seq::empty()
    } else {
        match first_claimant(es, w.num) {
            Some(k) => seq![show_on_output_text(w.num, es[k].0@)],
            None => Seq::empty(),
        }
    }
}

/// The corrections for every workspace of `ws`, in order.
pub open spec fn all_corrections(es: Seq<(String, Vec<i32>)>, ws: Seq<Workspace>) -> Seq<Seq<char>>
    decreases ws.len(),
{
    if ws.len() == 0 {
        Seq::empty()
    } else {
        all_corrections(es, ws.drop_last()) + corrections(es, ws.last())
    }
}

/// Entry `k` received no workspace: it is reached by none of `ws`.
pub open spec fn left_empty(es: Seq<(String, Vec<i32>)>, ws: Seq<Workspace>, k: int) -> bool {
    forall|i: int| 0 <= i < ws.len() ==> !reached(es, k, #[trigger] ws[i])
}

proof fn lemma_left_empty_step(es: Seq<(String, Vec<i32>)>, pre: Seq<Workspace>, w: Workspace, j: int)
    ensures
        !left_empty(es, pre.push(w), j) == (!left_empty(es, pre, j) || reached(es, j, w)),
{
    let next = pre.push(w);
    if reached(es, j, w) {
        assert(next[pre.len() as int] == w);
        assert(!left_empty(es, next, j));
    } else if !left_empty(es, next, j) {
        let t = choose|t: int| 0 <= t < next.len() && reached(es, j, #[trigger] next[t]);
        assert(next[t] == pre[t]);
        assert(!left_empty(es, pre, j));
    } else {
        assert forall|t: int| 0 <= t < pre.len() implies !reached(es, j, #[trigger] pre[t]) by {
            assert(pre[t] == next[t]);
        }
    }
}

/// The lowest number of a non-empty sequence.
pub open spec fn seq_min(s: Seq<i32>) -> i32
    decreases s.len(),
{
    if s.len() <= 1 {
        s[0]
    } else if s.last() < seq_min(s.drop_last()) {
        s.last()
    } else {
        seq_min(s.drop_last())
    }
}

/// `seq_min` is one of the numbers, and no number is lower.
pub proof fn lemma_seq_min(s: Seq<i32>)
    requires
        s.len() > 0,
    ensures
        s.contains(seq_min(s)),
        forall|i: int| 0 <= i < s.len() ==> seq_min(s) <= #[trigger] s[i],
    decreases s.len(),
{
    if s.len() > 1 {
        let t = s.drop_last();
        lemma_seq_min(t);
        assert forall|i: int| 0 <= i < s.len() implies seq_min(s) <= #[trigger] s[i] by {
            if i < t.len() {
                assert(s[i] == t[i]);
            }
        }
        if seq_min(s) != s.last() {
            let j = choose|j: int| 0 <= j < t.len() && t[j] == seq_min(t);
            assert(s[j] == t[j]);
        } else {
            assert(s[s.len() - 1] == s.last());
        }
    } else {
        assert(s[0] == seq_min(s));
    }
}

/// For each of the first `n` entries that received no workspace and
/// declares some numbers, the command that shows its lowest number on it.
pub open spec fn fills(es: Seq<(String, Vec<i32>)>, ws: Seq<Workspace>, n: int) -> Seq<Seq<char>>
    decreases n,
{
    if n <= 0 || n > es.len() {
        Seq::empty()
    } else {
        let k = n - 1;
        fills(es, ws, k) + if left_empty(es, ws, k) && es[k].1@.len() > 0 {
            seq![show_on_output_text(seq_min(es[k].1@), es[k].0@)]
        } else {
            Seq::empty()
        }
    }
}

/// The number of the last focused workspace of `ws`.
pub open spec fn last_focused(ws: Seq<Workspace>) -> Option<i32>
    decreases ws.len(),
{
    if ws.len() == 0 {
        None
    } else if ws.last().focused {
        Some(ws.last().num)
    } else {
        last_focused(ws.drop_last())
    }
}

/// Everything the reassignment issues: the corrections, then the fills,
/// then the command that focuses again the workspace that was focused.
pub open spec fn reassignment(es: Seq<(String, Vec<i32>)>, ws: Seq<Workspace>) -> Seq<Seq<char>> {
    all_corrections(es, ws) + fills(es, ws, es.len() as int) + match last_focused(ws) {
        Some(n) => seq![select_workspace_text(n)],
        None => Seq::empty(),
    }
}

/// The lowest number of `v`.
fn lowest(v: &Vec<i32>) -> (r: i32)
    requires
        v@.len() > 0,
    ensures
        r == seq_min(v@),
{
    let mut m = v[0];
    let mut i: usize = 1;
    proof {
        assert(v@.subrange(0, 1) =~= seq![v@[0]]);
    }
    while i < v.len()
        invariant
            1 <= i <= v@.len(),
            m == seq_min(v@.subrange(0, i as int)),
        decreases v.len() - i,
    {
        proof {
            assert(v@.subrange(0, i + 1).drop_last() =~= v@.subrange(0, i as int));
        }
        if v[i] < m {
            m = v[i];
        }
        i = i + 1;
    }
    proof {
        assert(v@.subrange(0, i as int) =~= v@);
    }
    m
}

/// Issues the correction for one workspace; marks the entries it reaches.
#[verifier::rlimit(30)]
fn correct_workspace(mappings: &Mapping, w: &Workspace, visited: &mut Vec<bool>, conn: &mut Connection)
    requires
        old(visited)@.len() == mappings.spec_entries().len(),
    ensures
        final(visited)@.len() == mappings.spec_entries().len(),
        forall|k: int| 0 <= k < mappings.spec_entries().len() ==> #[trigger] final(visited)@[k] == (
        old(visited)@[k] || reached(mappings.spec_entries(), k, *w)),
        final(conn)@ == old(conn)@ + corrections(mappings.spec_entries(), *w),
{
    let es = mappings.entries();
    let mut on = false;
    let mut k: usize = 0;
    while k < es.len()
        invariant
            k <= es@.len(),
            es@ == mappings.spec_entries(),
            on == exists|j: int| 0 <= j < k && (#[trigger] es@[j]).1@.contains(w.num) && es@[j].0@
                == w.output@,
        decreases es.len() - k,
    {
        if !on && crate::mapping::contains_num(&es[k].1, w.num) && crate::text::same_text(
            es[k].0.as_str(),
            w.output.as_str(),
        ) {
            on = true;
        }
        k = k + 1;
    }
    proof {
        reveal(on_claimant);
    }
    let first = mappings.claimant(w.num);
    let mut k: usize = 0;
    while k < es.len()
        invariant
            k <= es@.len(),
            es@ == mappings.spec_entries(),
            on == on_claimant(es@, *w),
            first is Some <==> first_claimant(es@, w.num) is Some,
            first is Some ==> first_claimant(es@, w.num) == Some(first->Some_0 as int),
            visited@.len() == es@.len(),
            forall|j: int| 0 <= j < es@.len() ==> #[trigger] visited@[j] == (old(visited)@[j] || (j
                < k && reached(es@, j, *w))),
        decreases es.len() - k,
    {
        let hit = crate::mapping::contains_num(&es[k].1, w.num) && if on {
            crate::text::same_text(es[k].0.as_str(), w.output.as_str())
        } else {
            first == Some(k)
        };
        proof {
            reveal(reached);
            if first is Some {
                assert((first == Some(k)) == (first_claimant(es@, w.num) == Some(k as int)));
            }
        }
        if hit {
            visited.set(k, true);
        }
        k = k + 1;
    }
    if !on {
        match first {
            Some(i) => {
                conn.run(crate::connection::show_on_output_command(w.num, es[i].0.as_str()));
                proof {
                    assert(conn@ =~= old(conn)@ + corrections(es@, *w));
                }
            },
            None => {
                proof {
                    assert(conn@ =~= old(conn)@ + corrections(es@, *w));
                }
            },
        }
    } else {
        proof {
            assert(conn@ =~= old(conn)@ + corrections(es@, *w));
        }
    }
}

/// Moves every workspace of the snapshot `workspaces` whose output does not
/// claim its number to the first output that claims it; then shows on each
/// mapped output that received no workspace the lowest of its numbers; then
/// focuses again the workspace that was focused. Returns how many commands
/// the first two steps issued.
#[verifier::rlimit(30)]
pub fn move_workspaces(mappings: &Mapping, workspaces: &Vec<Workspace>, conn: &mut Connection) -> (r: (
    usize,
    usize,
))
    ensures
        final(conn)@ == old(conn)@ + reassignment(mappings.spec_entries(), workspaces@),
        r.0 == all_corrections(mappings.spec_entries(), workspaces@).len(),
        r.1 == fills(mappings.spec_entries(), workspaces@, mappings.spec_entries().len() as int).len(),
{
    let es = mappings.entries();
    let c0 = conn.commands().len();
    let mut visited: Vec<bool> = Vec::new();
    let mut k: usize = 0;
    while k < es.len()
        invariant
            k <= es@.len(),
            visited@.len() == k,
            forall|j: int| 0 <= j < k ==> !(#[trigger] visited@[j]),
        decreases es.len() - k,
    {
        visited.push(false);
        k = k + 1;
    }
    let mut focused_ws: Option<i32> = None;
    let mut i: usize = 0;
    while i < workspaces.len()
        invariant
            es@ == mappings.spec_entries(),
            i <= workspaces@.len(),
            visited@.len() == es@.len(),
            forall|j: int| 0 <= j < es@.len() ==> #[trigger] visited@[j] == !left_empty(
                es@,
                workspaces@.subrange(0, i as int),
                j,
            ),
            focused_ws == last_focused(workspaces@.subrange(0, i as int)),
            conn@ == old(conn)@ + all_corrections(es@, workspaces@.subrange(0, i as int)),
        decreases workspaces.len() - i,
    {
        let w = &workspaces[i];
        let ghost pre = workspaces@.subrange(0, i as int);
        let ghost next = workspaces@.subrange(0, i + 1);
        proof {
            assert(next.drop_last() =~= pre);
            assert(next.last() == *w);
        }
        if w.focused {
            focused_ws = Some(w.num);
        }
        correct_workspace(mappings, w, &mut visited, conn);
        proof {
            assert(next =~= pre.push(*w));
            assert forall|j: int| 0 <= j < es@.len() implies #[trigger] visited@[j] == !left_empty(
                es@,
                next,
                j,
            ) by {
                lemma_left_empty_step(es@, pre, *w, j);
            }
            assert(conn@ =~= old(conn)@ + all_corrections(es@, next));
        }
        i = i + 1;
    }
    proof {
        assert(workspaces@.subrange(0, i as int) =~= workspaces@);
    }
    let c1 = conn.commands().len();
    let ghost c2 = conn@;
    let mut k: usize = 0;
    while k < es.len()
        invariant
            es@ == mappings.spec_entries(),
            k <= es@.len(),
            visited@.len() == es@.len(),
            forall|j: int| 0 <= j < es@.len() ==> #[trigger] visited@[j] == !left_empty(
                es@,
                workspaces@,
                j,
            ),
            conn@ == c2 + fills(es@, workspaces@, k as int),
        decreases es.len() - k,
    {
        if !visited[k] && es[k].1.len() > 0 {
            conn.run(crate::connection::show_on_output_command(lowest(&es[k].1), es[k].0.as_str()));
        }
        proof {
            assert(conn@ =~= c2 + fills(es@, workspaces@, k + 1));
        }
        k = k + 1;
    }
    let c3 = conn.commands().len();
    match focused_ws {
        Some(n) => {
            conn.run(crate::connection::select_workspace_command(n));
        },
        None => {},
    }
    proof {
        assert(conn@ =~= old(conn)@ + reassignment(es@, workspaces@));
    }
    (c1 - c0, c3 - c1)
}

} // verus!
