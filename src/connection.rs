//! The compositor commands this library issues, as text, and the log that
//! collects them in the order in which they are to be run.
use vstd::prelude::*;
use crate::model::{TreeOutput, TreeWindow, TreeWorkspace, WsError};
use crate::text::{decimal, push_decimal, push_str, string_of};

verus! {

/// Focuses the workspace with a number and a name.
pub open spec fn workspace_text(num: i32, name: Seq<char>) -> Seq<char> {
    "workspace number "@ + decimal(num as int) + seq![':'] + name
}

/// Focuses the workspace with a number.
pub open spec fn workspace_num_text(num: i32) -> Seq<char> {
    "workspace number "@ + decimal(num as int)
}

/// Focuses the workspace with a name.
pub open spec fn workspace_name_text(name: Seq<char>) -> Seq<char> {
    "workspace "@ + name
}

/// Moves the focused container to the workspace with a number and a name.
pub open spec fn move_to_workspace_text(num: i32, name: Seq<char>) -> Seq<char> {
    "move to workspace number "@ + decimal(num as int) + seq![':'] + name
}

/// Moves the focused container to the workspace with a number.
pub open spec fn move_to_workspace_num_text(num: i32) -> Seq<char> {
    "move to workspace number "@ + decimal(num as int)
}

/// Moves the focused container to the workspace with a name.
pub open spec fn move_to_workspace_name_text(name: Seq<char>) -> Seq<char> {
    "move to workspace "@ + name
}

/// Moves the focused workspace to an output.
pub open spec fn move_workspace_to_output_text(output: Seq<char>) -> Seq<char> {
    "move workspace to output "@ + output
}

/// Focuses an output.
pub open spec fn focus_output_text(output: Seq<char>) -> Seq<char> {
    "focus output "@ + output
}

/// Adds a mark to the focused container.
pub open spec fn mark_add_text(mark: Seq<char>) -> Seq<char> {
    "mark --add "@ + mark
}

/// Removes a mark.
pub open spec fn mark_remove_text(mark: Seq<char>) -> Seq<char> {
    "unmark "@ + mark
}

/// Removes all marks.
pub open spec fn mark_remove_all_text() -> Seq<char> {
    "unmark"@
}

/// Selects a workspace without the back-and-forth toggle.
pub open spec fn select_workspace_text(num: i32) -> Seq<char> {
    "workspace --no-auto-back-and-forth number "@ + decimal(num as int)
}

/// Selects a workspace without the back-and-forth toggle and moves it to an output.
pub open spec fn show_on_output_text(num: i32, output: Seq<char>) -> Seq<char> {
    select_workspace_text(num) + ", move workspace to output '"@ + output + "'"@
}

/// Moves the workspace with a number to an output, by criteria.
pub open spec fn assign_text(num: i32, output: Seq<char>) -> Seq<char> {
    "[workspace="@ + decimal(num as int) + "] move workspace to '"@ + output + "'"@
}

/// The view of an optional text.
pub open spec fn opt_view(s: Option<&str>) -> Option<Seq<char>> {
    match s {
        Some(t) => Some(t@),
        None => None,
    }
}

/// The command that focuses the workspace given by number and name, by
/// number, or by name; none when neither is given.
pub open spec fn focus_target_text(num: Option<i32>, name: Option<Seq<char>>) -> Option<Seq<char>> {
    match (num, name) {
        (Some(n), Some(s)) => Some(workspace_text(n, s)),
        (Some(n), None) => Some(workspace_num_text(n)),
        (None, Some(s)) => Some(workspace_name_text(s)),
        (None, None) => None,
    }
}

/// The command that moves the focused container to the workspace given by
/// number and name, by number, or by name; none when neither is given.
pub open spec fn move_target_text(num: Option<i32>, name: Option<Seq<char>>) -> Option<Seq<char>> {
    match (num, name) {
        (Some(n), Some(s)) => Some(move_to_workspace_text(n, s)),
        (Some(n), None) => Some(move_to_workspace_num_text(n)),
        (None, Some(s)) => Some(move_to_workspace_name_text(s)),
        (None, None) => None,
    }
}

fn lit_num_lit(a: &str, num: i32, b: &str) -> (r: Vec<char>)
    ensures
        r@ == a@ + decimal(num as int) + b@,
{
    let mut v: Vec<char> = Vec::new();
    push_str(&mut v, a);
    push_decimal(&mut v, num);
    push_str(&mut v, b);
    proof {
        assert(v@ =~= a@ + decimal(num as int) + b@);
    }
    v
}

fn lit_text(a: &str, s: &str) -> (r: String)
    ensures
        r@ == a@ + s@,
{
    let mut v: Vec<char> = Vec::new();
    push_str(&mut v, a);
    push_str(&mut v, s);
    proof {
        assert(v@ =~= a@ + s@);
    }
    string_of(v.as_slice())
}

/// The text of a command on a numbered and named workspace.
fn num_name_text(prefix: &str, num: i32, name: &str) -> (r: String)
    ensures
        r@ == prefix@ + decimal(num as int) + seq![':'] + name@,
{
    let mut v = lit_num_lit(prefix, num, ":");
    push_str(&mut v, name);
    proof {
        reveal_strlit(":");
        assert(v@ =~= prefix@ + decimal(num as int) + seq![':'] + name@);
    }
    string_of(v.as_slice())
}

/// The command that selects workspace `num` without the back-and-forth toggle.
pub fn select_workspace_command(num: i32) -> (r: String)
    ensures
        r@ == select_workspace_text(num),
{
    let v = lit_num_lit("workspace --no-auto-back-and-forth number ", num, "");
    proof {
        reveal_strlit("");
        assert(v@ =~= select_workspace_text(num));
    }
    string_of(v.as_slice())
}

/// The command that selects workspace `num` and moves it to `output`.
pub fn show_on_output_command(num: i32, output: &str) -> (r: String)
    ensures
        r@ == show_on_output_text(num, output@),
{
    let mut v = lit_num_lit(
        "workspace --no-auto-back-and-forth number ",
        num,
        ", move workspace to output '",
    );
    push_str(&mut v, output);
    push_str(&mut v, "'");
    proof {
        assert(v@ =~= show_on_output_text(num, output@));
    }
    string_of(v.as_slice())
}

/// The command that moves workspace `num` to `output`, wherever it is.
pub fn assign_command(num: i32, output: &str) -> (r: String)
    ensures
        r@ == assign_text(num, output@),
{
    let mut v = lit_num_lit("[workspace=", num, "] move workspace to '");
    push_str(&mut v, output);
    push_str(&mut v, "'");
    proof {
        assert(v@ =~= assign_text(num, output@));
    }
    string_of(v.as_slice())
}

/// The commands to run, in order. Running them is up to the caller, which
/// also decides whether to run them at all or only to show them.
pub struct Connection {
    commands: Vec<String>,
}

impl View for Connection {
    type V = Seq<Seq<char>>;

    closed spec fn view(&self) -> Seq<Seq<char>> {
        self.commands@.map_values(|c: String| c@)
    }
}

impl Connection {
    /// A log with no commands.
    pub fn new() -> (r: Connection)
        ensures
            r@ == Seq::<Seq<char>>::empty(),
    {
        let r = Connection { commands: Vec::new() };
        proof {
            assert(r@ =~= Seq::<Seq<char>>::empty());
        }
        r
    }

    /// The commands issued so far.
    pub fn commands(&self) -> (r: &Vec<String>)
        ensures
            r@.len() == self@.len(),
            forall|i: int| 0 <= i < r@.len() ==> #[trigger] r@[i]@ == self@[i],
    {
        &self.commands
    }

    /// Issues a command.
    pub fn run(&mut self, payload: String)
        ensures
            final(self)@ == old(self)@.push(payload@),
    {
        self.commands.push(payload);
        proof {
            assert(self@ =~= old(self)@.push(payload@));
        }
    }

    /// Focuses a workspace by number and name, by number, or by name.
    pub fn workspace(&mut self, num: Option<i32>, name: Option<&str>) -> (r: Result<(), WsError>)
        ensures
            match focus_target_text(num, opt_view(name)) {
                Some(t) => r is Ok && final(self)@ == old(self)@.push(t),
                None => r == Err::<(), WsError>(WsError::NeitherNumNorNameProvided) && final(self)@
                    == old(self)@,
            },
    {
        match num {
            Some(n) => match name {
                Some(s) => {
                    self.run(num_name_text("workspace number ", n, s));
                    Ok(())
                },
                None => self.workspace_num(n),
            },
            None => match name {
                Some(s) => self.workspace_name(s),
                None => Err(WsError::NeitherNumNorNameProvided),
            },
        }
    }

    /// Focuses the workspace with number `num`.
    pub fn workspace_num(&mut self, num: i32) -> (r: Result<(), WsError>)
        ensures
            r is Ok,
            final(self)@ == old(self)@.push(workspace_num_text(num)),
    {
        let v = lit_num_lit("workspace number ", num, "");
        proof {
            reveal_strlit("");
            assert(v@ =~= workspace_num_text(num));
        }
        self.run(string_of(v.as_slice()));
        Ok(())
    }

    /// Focuses the workspace named `name`.
    pub fn workspace_name(&mut self, name: &str) -> (r: Result<(), WsError>)
        ensures
            r is Ok,
            final(self)@ == old(self)@.push(workspace_name_text(name@)),
    {
        self.run(lit_text("workspace ", name));
        Ok(())
    }

    /// Moves the focused container to a workspace by number and name, by
    /// number, or by name.
    pub fn move_to_workspace(&mut self, num: Option<i32>, name: Option<&str>) -> (r: Result<
        (),
        WsError,
    >)
        ensures
            match move_target_text(num, opt_view(name)) {
                Some(t) => r is Ok && final(self)@ == old(self)@.push(t),
                None => r == Err::<(), WsError>(WsError::NeitherNumNorNameProvided) && final(self)@
                    == old(self)@,
            },
    {
        match num {
            Some(n) => match name {
                Some(s) => {
                    self.run(num_name_text("move to workspace number ", n, s));
                    Ok(())
                },
                None => self.move_to_workspace_num(n),
            },
            None => match name {
                Some(s) => self.move_to_workspace_name(s),
                None => Err(WsError::NeitherNumNorNameProvided),
            },
        }
    }

    /// Moves the focused container to the workspace with number `num`.
    pub fn move_to_workspace_num(&mut self, num: i32) -> (r: Result<(), WsError>)
        ensures
            r is Ok,
            final(self)@ == old(self)@.push(move_to_workspace_num_text(num)),
    {
        let v = lit_num_lit("move to workspace number ", num, "");
        proof {
            reveal_strlit("");
            assert(v@ =~= move_to_workspace_num_text(num));
        }
        self.run(string_of(v.as_slice()));
        Ok(())
    }

    /// Moves the focused container to the workspace named `name`.
    pub fn move_to_workspace_name(&mut self, name: &str) -> (r: Result<(), WsError>)
        ensures
            r is Ok,
            final(self)@ == old(self)@.push(move_to_workspace_name_text(name@)),
    {
        self.run(lit_text("move to workspace ", name));
        Ok(())
    }

    /// Moves the focused workspace to `output`.
    pub fn move_workspace_to_output(&mut self, output: &str) -> (r: Result<(), WsError>)
        ensures
            r is Ok,
            final(self)@ == old(self)@.push(move_workspace_to_output_text(output@)),
    {
        self.run(lit_text("move workspace to output ", output));
        Ok(())
    }

    /// Focuses the output `name`.
    pub fn focus_output(&mut self, name: &str) -> (r: Result<(), WsError>)
        ensures
            r is Ok,
            final(self)@ == old(self)@.push(focus_output_text(name@)),
    {
        self.run(lit_text("focus output ", name));
        Ok(())
    }

    /// Adds `mark` to the focused container.
    pub fn mark_add(&mut self, mark: &str) -> (r: Result<(), WsError>)
        ensures
            r is Ok,
            final(self)@ == old(self)@.push(mark_add_text(mark@)),
    {
        self.run(lit_text("mark --add ", mark));
        Ok(())
    }

    /// Removes `mark` from whichever container bears it.
    pub fn mark_remove(&mut self, mark: &str) -> (r: Result<(), WsError>)
        ensures
            r is Ok,
            final(self)@ == old(self)@.push(mark_remove_text(mark@)),
    {
        self.run(lit_text("unmark ", mark));
        Ok(())
    }

    /// Removes all marks.
    pub fn mark_remove_all(&mut self) -> (r: Result<(), WsError>)
        ensures
            r is Ok,
            final(self)@ == old(self)@.push(mark_remove_all_text()),
    {
        self.run(crate::text::string_of(crate::text::chars_of("unmark").as_slice()));
        Ok(())
    }
}

/// The window bears `mark`.
pub open spec fn window_marked(w: TreeWindow, mark: Seq<char>) -> bool {
    exists|k: int| 0 <= k < w.marks@.len() && (#[trigger] w.marks@[k])@ == mark
}

/// Some window directly under the workspace bears `mark`.
pub open spec fn workspace_marked(ws: TreeWorkspace, mark: Seq<char>) -> bool {
    exists|c: int| 0 <= c < ws.windows@.len() && window_marked(#[trigger] ws.windows@[c], mark)
}

/// Workspace `w` of output `o` exists in the tree.
pub open spec fn in_tree(tree: Seq<TreeOutput>, o: int, w: int) -> bool {
    0 <= o < tree.len() && 0 <= w < tree[o].workspaces@.len()
}

/// Workspace `w` of output `o` is the first one, in the order of the tree,
/// with a window that bears `mark`.
pub open spec fn first_marked(tree: Seq<TreeOutput>, mark: Seq<char>, o: int, w: int) -> bool {
    &&& in_tree(tree, o, w)
    &&& workspace_marked(tree[o].workspaces@[w], mark)
    &&& forall|o2: int, w2: int|
        #![trigger tree[o2].workspaces@[w2]]
        in_tree(tree, o2, w2) && (o2 < o || (o2 == o && w2 < w)) ==> !workspace_marked(
            tree[o2].workspaces@[w2],
            mark,
        )
}

/// What the search for a mark reports on the workspace `ws` of the output `out`.
pub open spec fn mark_report(
    r: Result<(i32, String, usize, String), WsError>,
    out: TreeOutput,
    ws: TreeWorkspace,
) -> bool {
    if ws.num is Some && ws.name is Some && out.name is Some {
        &&& r is Ok
        &&& r->Ok_0.0 == ws.num->Some_0
        &&& r->Ok_0.1 == ws.name->Some_0
        &&& r->Ok_0.2 == ws.windows@.len()
        &&& r->Ok_0.3 == out.name->Some_0
    } else {
        r == Err::<(i32, String, usize, String), WsError>(WsError::UnexpectedTree)
    }
}

fn window_has_mark(win: &TreeWindow, mark: &str) -> (r: bool)
    ensures
        r == window_marked(*win, mark@),
{
    let mut k: usize = 0;
    while k < win.marks.len()
        invariant
            k <= win.marks@.len(),
            forall|j: int| 0 <= j < k ==> (#[trigger] win.marks@[j])@ != mark@,
        decreases win.marks.len() - k,
    {
        if crate::text::same_text(win.marks[k].as_str(), mark) {
            return true;
        }
        k = k + 1;
    }
    false
}

fn workspace_has_mark(ws: &TreeWorkspace, mark: &str) -> (r: bool)
    ensures
        r == workspace_marked(*ws, mark@),
{
    let mut c: usize = 0;
    while c < ws.windows.len()
        invariant
            c <= ws.windows@.len(),
            forall|j: int| 0 <= j < c ==> !window_marked(#[trigger] ws.windows@[j], mark@),
        decreases ws.windows.len() - c,
    {
        if window_has_mark(&ws.windows[c], mark) {
            return true;
        }
        c = c + 1;
    }
    false
}

impl Connection {
    /// Finds the workspace whose window bears `mark`: its number, its name,
    /// how many windows it holds and the name of its output. Looks through
    /// the outputs and their workspaces in order and reports on the first
    /// workspace found.
    pub fn get_workspace_with_mark(&self, tree: &Vec<TreeOutput>, mark: &str) -> (r: Result<
        (i32, String, usize, String),
        WsError,
    >)
        ensures
            r == Err::<(i32, String, usize, String), WsError>(WsError::MarkNotFound) <==> forall|
                o: int,
                w: int,
            |
                #![trigger tree@[o].workspaces@[w]]
                in_tree(tree@, o, w) ==> !workspace_marked(tree@[o].workspaces@[w], mark@),
            forall|o: int, w: int|
                #![trigger tree@[o].workspaces@[w]]
                first_marked(tree@, mark@, o, w) ==> mark_report(
                    r,
                    tree@[o],
                    tree@[o].workspaces@[w],
                ),
    {
        let mut o: usize = 0;
        while o < tree.len()
            invariant
                o <= tree@.len(),
                forall|o2: int, w2: int|
                    #![trigger tree@[o2].workspaces@[w2]]
                    in_tree(tree@, o2, w2) && o2 < o ==> !workspace_marked(
                        tree@[o2].workspaces@[w2],
                        mark@,
                    ),
            decreases tree.len() - o,
        {
            let out = &tree[o];
            let mut w: usize = 0;
            while w < out.workspaces.len()
                invariant
                    o < tree@.len(),
                    *out == tree@[o as int],
                    w <= out.workspaces@.len(),
                    forall|o2: int, w2: int|
                        #![trigger tree@[o2].workspaces@[w2]]
                        in_tree(tree@, o2, w2) && (o2 < o || (o2 == o && w2 < w)) ==> !workspace_marked(
                            tree@[o2].workspaces@[w2],
                            mark@,
                        ),
                decreases out.workspaces.len() - w,
            {
                let ws = &out.workspaces[w];
                if workspace_has_mark(ws, mark) {
                    proof {
                        assert(first_marked(tree@, mark@, o as int, w as int));
                        assert forall|o3: int, w3: int|
                            #![trigger tree@[o3].workspaces@[w3]]
                            first_marked(tree@, mark@, o3, w3) implies o3 == o && w3 == w by {
                            if o3 < o || (o3 == o && w3 < w) {
                            } else if o3 > o || (o3 == o && w3 > w) {
                                assert(!workspace_marked(tree@[o as int].workspaces@[w as int], mark@));
                            }
                        }
                    }
                    let num = match ws.num {
                        Some(n) => n,
                        None => {
                            return Err(WsError::UnexpectedTree);
                        },
                    };
                    let name = match &ws.name {
                        Some(n) => n.clone(),
                        None => {
                            return Err(WsError::UnexpectedTree);
                        },
                    };
                    let output_name = match &out.name {
                        Some(n) => n.clone(),
                        None => {
                            return Err(WsError::UnexpectedTree);
                        },
                    };
                    return Ok((num, name, ws.windows.len(), output_name));
                }
                w = w + 1;
            }
            o = o + 1;
        }
        Err(WsError::MarkNotFound)
    }
}

} // verus!
