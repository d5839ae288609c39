//! The simpler workspace tools: they take the output of a new workspace from
//! the command line or from the mapping, and move the workspace there after
//! the compositor created it.
use vstd::prelude::*;
use crate::connection::{assign_text, move_to_workspace_num_text, workspace_name_text, Connection};
use crate::mapping::{first_claimant, Mapping};
use crate::model::{first_where, lemma_first_where_found, lemma_first_where_none, Output, Workspace};
use crate::sway::{found, out_matches, ws_focused, ws_visible_on};
use crate::text::{chars_of, decimal, parse_i32, parse_i32_spec, string_of};
use crate::token::first_index;

verus! {

/// The command line of the simpler workspace tools.
pub struct WorkspaceCli {
    /// The string "number".
    pub number: String,
    /// The workspace to switch to.
    pub workspace: i32,
    /// If the workspace does not exist yet, open it on this output.
    pub output: Option<String>,
}

/// The name of the output that `output` denotes, by name or by descriptor:
/// the first output of the snapshot that matches either way.
pub fn output_if_exists(output: String, outputs: &Vec<Output>) -> (r: Option<String>)
    ensures
        match first_where(outputs@, out_matches(Some(output@), Some(output@))) {
            Some(k) => r is Some && r->Some_0@ == outputs@[k].name@,
            None => r is None,
        },
{
    let mut k: usize = 0;
    while k < outputs.len()
        invariant
            k <= outputs@.len(),
            forall|j: int| 0 <= j < k ==> !out_matches(Some(output@), Some(output@))(#[trigger] outputs@[j]),
        decreases outputs.len() - k,
    {
        let o = &outputs[k];
        if crate::text::same_text(output.as_str(), o.name.as_str()) {
            proof {
                lemma_first_where_found(outputs@, out_matches(Some(output@), Some(output@)), k as int);
            }
            return Some(output);
        }
        let d = o.identifier();
        if crate::text::same_text(output.as_str(), d.as_str()) {
            proof {
                lemma_first_where_found(outputs@, out_matches(Some(output@), Some(output@)), k as int);
            }
            return Some(o.name.clone());
        }
        k = k + 1;
    }
    proof {
        lemma_first_where_none(outputs@, out_matches(Some(output@), Some(output@)));
    }
    None
}

/// Whether a workspace with number `workspace_num` exists.
pub fn workspace_exists(workspace_num: i32, workspaces: &Vec<Workspace>) -> (r: bool)
    ensures
        r == exists|i: int| 0 <= i < workspaces@.len() && (#[trigger] workspaces@[i]).num == workspace_num,
{
    let mut i: usize = 0;
    while i < workspaces.len()
        invariant
            i <= workspaces@.len(),
            forall|j: int| 0 <= j < i ==> (#[trigger] workspaces@[j]).num != workspace_num,
        decreases workspaces.len() - i,
    {
        if workspaces[i].num == workspace_num {
            return true;
        }
        i = i + 1;
    }
    false
}

/// The output that the mapping puts workspace `workspace_num` on.
pub fn get_output_for_workspace(workspace_num: i32, config: &Mapping) -> (r: Option<String>)
    requires
        config.wf(),
    ensures
        match first_claimant(config.spec_entries(), workspace_num) {
            Some(i) => r is Some && r->Some_0 == config.spec_entries()[i].0,
            None => r is None,
        },
{
    config.output_for_workspace(workspace_num)
}

fn first_ws<'a>(workspaces: &'a Vec<Workspace>, focused_only: bool, output: &str) -> (r: Option<
    &'a Workspace,
>)
    ensures
        focused_only ==> found(r, workspaces@, ws_focused()),
        !focused_only ==> found(r, workspaces@, ws_visible_on(output@)),
{
    let ghost p = if focused_only {
        ws_focused()
    } else {
        ws_visible_on(output@)
    };
    let mut i: usize = 0;
    while i < workspaces.len()
        invariant
            i <= workspaces@.len(),
            p == (if focused_only { ws_focused() } else { ws_visible_on(output@) }),
            forall|j: int| 0 <= j < i ==> !p(#[trigger] workspaces@[j]),
        decreases workspaces.len() - i,
    {
        let w = &workspaces[i];
        let hit = if focused_only {
            w.focused
        } else {
            w.visible && crate::text::same_text(w.output.as_str(), output)
        };
        if hit {
            proof {
                lemma_first_where_found(workspaces@, p, i as int);
            }
            return Some(w);
        }
        i = i + 1;
    }
    proof {
        lemma_first_where_none(workspaces@, p);
    }
    None
}

/// The first focused workspace.
pub fn get_focused_workspace(workspaces: &Vec<Workspace>) -> (r: Option<&Workspace>)
    ensures
        found(r, workspaces@, ws_focused()),
{
    first_ws(workspaces, true, "")
}

/// The first workspace shown on `output`.
pub fn get_visible_workspace_for_output<'a>(output: &String, workspaces: &'a Vec<Workspace>) -> (r:
    Option<&'a Workspace>)
    ensures
        found(r, workspaces@, ws_visible_on(output@)),
{
    first_ws(workspaces, false, output.as_str())
}

/// The output a new workspace of the tools goes to: the output given on the
/// command line if it is connected, otherwise the one the mapping gives.
pub fn workspace_output(cli: &WorkspaceCli, outputs: &Vec<Output>, config: Option<&Mapping>) -> (r:
    Option<String>)
    requires
        config is Some ==> config->Some_0.wf(),
    ensures
        ({
            let given = match cli.output {
                Some(o) => first_where(outputs@, out_matches(Some(o@), Some(o@))),
                None => None,
            };
            match given {
                Some(k) => r is Some && r->Some_0@ == outputs@[k].name@,
                None => match config {
                    None => r is None,
                    Some(m) => match first_claimant(m.spec_entries(), cli.workspace) {
                        Some(i) => r is Some && r->Some_0 == m.spec_entries()[i].0,
                        None => r is None,
                    },
                },
            }
        }),
{
    let given = match &cli.output {
        Some(o) => output_if_exists(o.clone(), outputs),
        None => None,
    };
    match given {
        Some(g) => Some(g),
        None => match config {
            Some(m) => get_output_for_workspace(cli.workspace, m),
            None => None,
        },
    }
}

/// Switches to workspace `num`; a workspace that did not exist is then moved
/// to `output`, if one is given, since the compositor creates it on the
/// focused output.
pub fn switch_to_workspace(conn: &mut Connection, num: i32, output: &Option<String>, exists: bool)
    ensures
        final(conn)@ == old(conn)@.push(workspace_name_text(decimal(num as int))) + match output {
            Some(o) => if !exists {
                seq![assign_text(num, o@)]
            } else {
                Seq::empty()
            },
            None => Seq::empty(),
        },
{
    let n = crate::text::decimal_string(num);
    let _ = conn.workspace_name(n.as_str());
    assign_if_new(conn, num, output, exists);
}

/// Moves the focused window to workspace `num`; a workspace that did not
/// exist is then moved to `output`, if one is given.
pub fn move_window_to_workspace(conn: &mut Connection, num: i32, output: &Option<String>, exists: bool)
    ensures
        final(conn)@ == old(conn)@.push(move_to_workspace_num_text(num)) + match output {
            Some(o) => if !exists {
                seq![assign_text(num, o@)]
            } else {
                Seq::empty()
            },
            None => Seq::empty(),
        },
{
    let _ = conn.move_to_workspace_num(num);
    assign_if_new(conn, num, output, exists);
}

fn assign_if_new(conn: &mut Connection, num: i32, output: &Option<String>, exists: bool)
    ensures
        final(conn)@ == old(conn)@ + match output {
            Some(o) => if !exists {
                seq![assign_text(num, o@)]
            } else {
                Seq::empty()
            },
            None => Seq::empty(),
        },
{
    match output {
        Some(o) => {
            if !exists {
                conn.run(crate::connection::assign_command(num, o.as_str()));
                proof {
                    assert(conn@ =~= old(conn)@ + seq![assign_text(num, o@)]);
                }
            } else {
                proof {
                    assert(conn@ =~= old(conn)@ + Seq::<Seq<char>>::empty());
                }
            }
        },
        None => {
            proof {
                assert(conn@ =~= old(conn)@ + Seq::<Seq<char>>::empty());
            }
        },
    }
}

/// The index of the last occurrence of `c` in `s`.
pub open spec fn last_index(s: Seq<char>, c: char) -> Option<nat>
    decreases s.len(),
{
    if s.len() == 0 {
        None
    } else if s.last() == c {
        Some((s.len() - 1) as nat)
    } else {
        last_index(s.drop_last(), c)
    }
}

/// The numbers from the smaller of `a` and `b` up to the larger, ascending.
pub open spec fn ascending_range(a: i32, b: i32) -> Seq<i32> {
    let lo = if a <= b { a } else { b };
    let hi = if a <= b { b } else { a };
    Seq::new((hi - lo + 1) as nat, |i: int| (lo + i) as i32)
}

/// The numbers of a tool's spec: a range `A-B`, split at its first `-`, or
/// a single number.
pub open spec fn tool_numbers(spec: Seq<char>) -> Option<Seq<i32>> {
    match first_index(spec, '-') {
        Some(k) => match (
            parse_i32_spec(spec.subrange(0, k as int)),
            parse_i32_spec(spec.subrange(k + 1int, spec.len() as int)),
        ) {
            (Some(a), Some(b)) => Some(ascending_range(a, b)),
            _ => None,
        },
        None => match parse_i32_spec(spec) {
            Some(n) => Some(seq![n]),
            None => None,
        },
    }
}

/// What a tool's token `output:spec` declares, split at its last `:`: the
/// name of the connected output it denotes and its numbers.
pub open spec fn tool_token(s: Seq<char>, outs: Seq<Output>) -> Option<(Seq<char>, Seq<i32>)> {
    match last_index(s, ':') {
        None => None,
        Some(c) => {
            let o = s.subrange(0, c as int);
            match first_where(outs, out_matches(Some(o), Some(o))) {
                None => None,
                Some(k) => match tool_numbers(s.subrange(c + 1int, s.len() as int)) {
                    Some(ns) => Some((outs[k].name@, ns)),
                    None => None,
                },
            }
        },
    }
}

/// The mapping that the tokens `maps` build, in order, from `m`.
pub open spec fn tool_fold(
    m: Map<Seq<char>, Seq<i32>>,
    maps: Seq<String>,
    outs: Seq<Output>,
) -> Map<Seq<char>, Seq<i32>>
    decreases maps.len(),
{
    if maps.len() == 0 {
        m
    } else {
        let prev = tool_fold(m, maps.drop_last(), outs);
        match tool_token(maps.last()@, outs) {
            Some((o, ns)) => prev.insert(o, ns),
            None => prev,
        }
    }
}

proof fn lemma_last_index_found(s: Seq<char>, c: char, i: int)
    requires
        0 <= i < s.len(),
        s[i] == c,
        forall|j: int| i < j < s.len() ==> s[j] != c,
    ensures
        last_index(s, c) == Some(i as nat),
    decreases s.len(),
{
    if i < s.len() - 1 {
        lemma_last_index_found(s.drop_last(), c, i);
    }
}

proof fn lemma_last_index_none(s: Seq<char>, c: char)
    requires
        forall|j: int| 0 <= j < s.len() ==> s[j] != c,
    ensures
        last_index(s, c) is None,
    decreases s.len(),
{
    if s.len() > 0 {
        lemma_last_index_none(s.drop_last(), c);
    }
}

fn find_last(s: &Vec<char>, c: char) -> (r: Option<usize>)
    ensures
        match last_index(s@, c) {
            Some(k) => r == Some(k as usize) && k < s@.len(),
            None => r is None,
        },
{
    let mut i: usize = s.len();
    while i > 0
        invariant
            i <= s@.len(),
            forall|j: int| i <= j < s@.len() ==> s@[j] != c,
        decreases i,
    {
        if s[i - 1] == c {
            proof {
                lemma_last_index_found(s@, c, i - 1);
            }
            return Some(i - 1);
        }
        i = i - 1;
    }
    proof {
        lemma_last_index_none(s@, c);
    }
    None
}

fn numbers_between(a: i32, b: i32) -> (r: Vec<i32>)
    ensures
        r@ == ascending_range(a, b),
{
    let lo = if a <= b { a } else { b };
    let hi = if a <= b { b } else { a };
    let mut r: Vec<i32> = Vec::new();
    let mut n: i64 = lo as i64;
    while n <= hi as i64
        invariant
            lo <= n <= hi as i64 + 1,
            r@ == Seq::new((n - lo) as nat, |i: int| (lo + i) as i32),
        decreases hi as i64 + 1 - n,
    {
        r.push(n as i32);
        proof {
            assert(r@ =~= Seq::new((n + 1 - lo) as nat, |i: int| (lo + i) as i32));
        }
        n = n + 1;
    }
    proof {
        assert(r@ =~= ascending_range(a, b));
    }
    r
}

fn copy_chars(s: &Vec<char>, from: usize, to: usize) -> (r: Vec<char>)
    requires
        from <= to <= s.len(),
    ensures
        r@ == s@.subrange(from as int, to as int),
{
    let mut r: Vec<char> = Vec::new();
    let mut i: usize = from;
    while i < to
        invariant
            from <= i <= to <= s.len(),
            r@ == s@.subrange(from as int, i as int),
        decreases to - i,
    {
        r.push(s[i]);
        proof {
            assert(r@ =~= s@.subrange(from as int, i + 1));
        }
        i = i + 1;
    }
    r
}

fn tool_numbers_of(spec: &Vec<char>) -> (r: Option<Vec<i32>>)
    ensures
        match tool_numbers(spec@) {
            Some(ns) => r is Some && r->Some_0@ == ns,
            None => r is None,
        },
{
    let dash = crate::token::find_char(spec, 0, '-');
    proof {
        assert(spec@.subrange(0, spec@.len() as int) =~= spec@);
    }
    match dash {
        Some(k) => {
            let left = copy_chars(spec, 0, k);
            let right = copy_chars(spec, k + 1, spec.len());
            match (parse_i32(left.as_slice()), parse_i32(right.as_slice())) {
                (Ok(a), Ok(b)) => Some(numbers_between(a, b)),
                _ => None,
            }
        },
        None => {
            match parse_i32(spec.as_slice()) {
                Ok(n) => {
                    let mut v: Vec<i32> = Vec::new();
                    v.push(n);
                    proof {
                        assert(v@ =~= seq![n]);
                    }
                    Some(v)
                },
                Err(_) => None,
            }
        },
    }
}

/// Applies the token `mapping` (`output:spec`, split at its last `:`): when
/// the output is connected and the spec well formed, the output's numbers
/// become those of the spec. Returns `None`, changing nothing, otherwise.
pub fn add_mapping(mapping: &str, workspaces: &mut Mapping, outputs: &Vec<Output>) -> (r: Option<()>)
    requires
        old(workspaces).wf(),
    ensures
        final(workspaces).wf(),
        match tool_token(mapping@, outputs@) {
            Some((o, ns)) => r is Some && final(workspaces)@ == old(workspaces)@.insert(o, ns),
            None => r is None && final(workspaces)@ == old(workspaces)@,
        },
{
    let cs = chars_of(mapping);
    let c = match find_last(&cs, ':') {
        Some(c) => c,
        None => {
            return None;
        },
    };
    let output_str = string_of(copy_chars(&cs, 0, c).as_slice());
    let output = match output_if_exists(output_str, outputs) {
        Some(o) => o,
        None => {
            return None;
        },
    };
    let spec = copy_chars(&cs, c + 1, cs.len());
    let nums = match tool_numbers_of(&spec) {
        Some(n) => n,
        None => {
            return None;
        },
    };
    workspaces.insert(output, nums);
    Some(())
}

/// The mapping that the tokens `mappings` build, in order, from an empty
/// one; tokens that do not apply are skipped.
pub fn make_config(mappings: Vec<String>, outputs: &Vec<Output>) -> (r: Mapping)
    ensures
        r.wf(),
        r@ == tool_fold(Map::empty(), mappings@, outputs@),
{
    let mut workspaces = Mapping::new();
    let mut i: usize = 0;
    while i < mappings.len()
        invariant
            i <= mappings@.len(),
            workspaces.wf(),
            workspaces@ == tool_fold(Map::empty(), mappings@.subrange(0, i as int), outputs@),
        decreases mappings.len() - i,
    {
        proof {
            let next = mappings@.subrange(0, i + 1);
            assert(next.drop_last() =~= mappings@.subrange(0, i as int));
        }
        let _ = add_mapping(mappings[i].as_str(), &mut workspaces, outputs);
        i = i + 1;
    }
    proof {
        assert(mappings@.subrange(0, i as int) =~= mappings@);
    }
    workspaces
}

/// Reads the mapping of the tools from its JSON text.
pub fn load_config(json: &str) -> (r: Result<Mapping, crate::model::WsError>)
    ensures
        r is Ok ==> r->Ok_0.wf(),
        r is Err ==> r->Err_0 is SerdeJson,
        forall|m: Map<Seq<char>, Seq<i32>>| #[trigger] crate::mapping::mapping_json(m) == json@
            && m.dom().finite() ==> r is Ok && r->Ok_0@ == m,
{
    Mapping::from_json(json)
}

/// The JSON text of the mapping of the tools, to be saved.
pub fn save_config(config: &Mapping) -> (r: Option<String>)
    ensures
        r is Some,
        r->Some_0@ == crate::mapping::mapping_json(config@),
{
    match config.to_json() {
        Ok(t) => Some(t),
        Err(_) => None,
    }
}

} // verus!
