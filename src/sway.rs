//! Snapshots of the compositor's workspaces and outputs, taken once per
//! operation, with the lookups the operations need.
use vstd::prelude::*;
use crate::connection::Connection;
use crate::mapping::Mapping;
use crate::model::{
    descriptor, first_where, lemma_first_where_found, lemma_first_where_none, Output, Workspace,
    WsError,
};
use crate::text::same_text;

verus! {

/// The workspace matches a request by number and/or name: its name equals
/// the requested name, or its number equals the requested number.
pub open spec fn ws_matches(num: Option<i32>, name: Option<Seq<char>>) -> spec_fn(Workspace) -> bool {
    |w: Workspace|
        (name is Some && name->Some_0 == w.name@) || (num is Some && num->Some_0 == w.num)
}

/// The workspace is focused.
pub open spec fn ws_focused() -> spec_fn(Workspace) -> bool {
    |w: Workspace| w.focused
}

/// The workspace is shown on output `output`.
pub open spec fn ws_visible_on(output: Seq<char>) -> spec_fn(Workspace) -> bool {
    |w: Workspace| w.visible && w.output@ == output
}

/// The output matches a request by name or by descriptor.
pub open spec fn out_matches(name: Option<Seq<char>>, identifier: Option<Seq<char>>) -> spec_fn(
    Output,
) -> bool {
    |o: Output|
        (name is Some && name->Some_0 == o.name@) || (identifier is Some && identifier->Some_0
            == descriptor(o))
}

/// The output is focused.
pub open spec fn out_focused() -> spec_fn(Output) -> bool {
    |o: Output| o.focused
}

/// What a lookup in a snapshot returns: the first match, if any.
pub open spec fn found<T>(r: Option<&T>, s: Seq<T>, p: spec_fn(T) -> bool) -> bool {
    match first_where(s, p) {
        Some(i) => r is Some && *r->Some_0 == s[i],
        None => r is None,
    }
}

/// A question asked of each workspace of a snapshot.
enum WsQuery<'a> {
    NumOrName(Option<i32>, Option<&'a str>),
    Focused,
    VisibleOn(&'a str),
}

spec fn query_pred(q: WsQuery) -> spec_fn(Workspace) -> bool {
    match q {
        WsQuery::NumOrName(num, name) => ws_matches(num, crate::connection::opt_view(name)),
        WsQuery::Focused => ws_focused(),
        WsQuery::VisibleOn(o) => ws_visible_on(o@),
    }
}

fn ws_answers(w: &Workspace, q: &WsQuery) -> (r: bool)
    ensures
        r == query_pred(*q)(*w),
{
    match q {
        WsQuery::NumOrName(num, name) => {
            let by_name = match name {
                Some(n) => same_text(n, w.name.as_str()),
                None => false,
            };
            let by_num = match num {
                Some(n) => *n == w.num,
                None => false,
            };
            by_name || by_num
        },
        WsQuery::Focused => w.focused,
        WsQuery::VisibleOn(o) => w.visible && same_text(w.output.as_str(), o),
    }
}

fn find_workspace<'a>(ws: &'a Vec<Workspace>, q: &WsQuery) -> (r: Option<&'a Workspace>)
    ensures
        found(r, ws@, query_pred(*q)),
{
    let mut i: usize = 0;
    while i < ws.len()
        invariant
            i <= ws.len(),
            forall|j: int| 0 <= j < i ==> !query_pred(*q)(#[trigger] ws@[j]),
        decreases ws.len() - i,
    {
        if ws_answers(&ws[i], q) {
            proof {
                lemma_first_where_found(ws@, query_pred(*q), i as int);
            }
            return Some(&ws[i]);
        }
        i = i + 1;
    }
    proof {
        lemma_first_where_none(ws@, query_pred(*q));
    }
    None
}

/// A question asked of each output of a snapshot.
enum OutQuery<'a> {
    NameOrIdentifier(Option<&'a str>, Option<&'a str>),
    Focused,
}

spec fn out_query_pred(q: OutQuery) -> spec_fn(Output) -> bool {
    match q {
        OutQuery::NameOrIdentifier(name, id) => out_matches(
            crate::connection::opt_view(name),
            crate::connection::opt_view(id),
        ),
        OutQuery::Focused => out_focused(),
    }
}

fn out_answers(o: &Output, q: &OutQuery) -> (r: bool)
    ensures
        r == out_query_pred(*q)(*o),
{
    match q {
        OutQuery::NameOrIdentifier(name, id) => {
            let by_name = match name {
                Some(n) => same_text(n, o.name.as_str()),
                None => false,
            };
            let by_id = match id {
                Some(i) => {
                    let d = o.identifier();
                    same_text(i, d.as_str())
                },
                None => false,
            };
            by_name || by_id
        },
        OutQuery::Focused => o.focused,
    }
}

fn find_output<'a>(outs: &'a Vec<Output>, q: &OutQuery) -> (r: Option<&'a Output>)
    ensures
        found(r, outs@, out_query_pred(*q)),
{
    let mut i: usize = 0;
    while i < outs.len()
        invariant
            i <= outs.len(),
            forall|j: int| 0 <= j < i ==> !out_query_pred(*q)(#[trigger] outs@[j]),
        decreases outs.len() - i,
    {
        if out_answers(&outs[i], q) {
            proof {
                lemma_first_where_found(outs@, out_query_pred(*q), i as int);
            }
            return Some(&outs[i]);
        }
        i = i + 1;
    }
    proof {
        lemma_first_where_none(outs@, out_query_pred(*q));
    }
    None
}

/// The first focused output of `outs`.
pub fn find_focused_output(outs: &Vec<Output>) -> (r: Option<&Output>)
    ensures
        found(r, outs@, out_focused()),
{
    find_output(outs, &OutQuery::Focused)
}

/// The state of one operation: the snapshots it has taken, the mapping it
/// works with, and the commands it has issued.
pub struct Sway {
    pub connection: Connection,
    pub workspaces: Option<Vec<Workspace>>,
    pub outputs: Option<Vec<Output>>,
    pub mapping: Mapping,
}

impl Sway {
    /// The workspace snapshot, if one was taken.
    pub open spec fn spec_workspaces(self) -> Option<Seq<Workspace>> {
        match self.workspaces {
            Some(v) => Some(v@),
            None => None,
        }
    }

    /// The output snapshot, if one was taken.
    pub open spec fn spec_outputs(self) -> Option<Seq<Output>> {
        match self.outputs {
            Some(v) => Some(v@),
            None => None,
        }
    }

    /// A state with no snapshots, an empty mapping and no commands.
    pub fn new() -> (r: Sway)
        ensures
            r.spec_workspaces() is None,
            r.spec_outputs() is None,
            r.mapping.wf(),
            r.mapping@ == Map::<Seq<char>, Seq<i32>>::empty(),
            r.connection@ == Seq::<Seq<char>>::empty(),
    {
        Sway {
            connection: Connection::new(),
            workspaces: None,
            outputs: None,
            mapping: Mapping::new(),
        }
    }

    /// The workspace snapshot.
    pub fn workspaces(&self) -> (r: Option<&Vec<Workspace>>)
        ensures
            match self.spec_workspaces() {
                Some(s) => r is Some && r->Some_0@ == s,
                None => r is None,
            },
    {
        self.workspaces.as_ref()
    }

    /// Keeps `fetched` as the workspace snapshot unless one was taken already.
    pub fn update_workspaces(&mut self, fetched: Vec<Workspace>)
        ensures
            final(self).spec_workspaces() == (match old(self).spec_workspaces() {
                Some(s) => Some(s),
                None => Some(fetched@),
            }),
            final(self).spec_outputs() == old(self).spec_outputs(),
            final(self).mapping == old(self).mapping,
            final(self).connection == old(self).connection,
    {
        if self.workspaces.is_none() {
            self.workspaces = Some(fetched);
        }
    }

    /// Forgets the workspace snapshot.
    pub fn reset_workspaces(&mut self)
        ensures
            final(self).spec_workspaces() is None,
            final(self).spec_outputs() == old(self).spec_outputs(),
            final(self).mapping == old(self).mapping,
            final(self).connection == old(self).connection,
    {
        self.workspaces = None;
    }

    /// Replaces the workspace snapshot with `fetched`.
    pub fn force_update_workspaces(&mut self, fetched: Vec<Workspace>)
        ensures
            final(self).spec_workspaces() == Some(fetched@),
            final(self).spec_outputs() == old(self).spec_outputs(),
            final(self).mapping == old(self).mapping,
            final(self).connection == old(self).connection,
    {
        self.reset_workspaces();
        self.update_workspaces(fetched);
    }

    /// The first workspace with number `num`.
    pub fn workspace_by_num(&self, num: i32) -> (r: Option<&Workspace>)
        ensures
            match self.spec_workspaces() {
                Some(s) => found(r, s, ws_matches(Some(num), None)),
                None => r is None,
            },
    {
        match &self.workspaces {
            Some(ws) => find_workspace(ws, &WsQuery::NumOrName(Some(num), None)),
            None => None,
        }
    }

    /// The first workspace named `name`.
    pub fn workspace_by_name(&self, name: &str) -> (r: Option<&Workspace>)
        ensures
            match self.spec_workspaces() {
                Some(s) => found(r, s, ws_matches(None, Some(name@))),
                None => r is None,
            },
    {
        match &self.workspaces {
            Some(ws) => find_workspace(ws, &WsQuery::NumOrName(None, Some(name))),
            None => None,
        }
    }

    /// The first workspace whose name is `name` or whose number is `num`.
    pub fn workspace_by_num_or_name(&self, num: Option<i32>, name: Option<&str>) -> (r: Option<
        &Workspace,
    >)
        ensures
            match self.spec_workspaces() {
                Some(s) => found(r, s, ws_matches(num, crate::connection::opt_view(name))),
                None => r is None,
            },
    {
        match &self.workspaces {
            Some(ws) => find_workspace(ws, &WsQuery::NumOrName(num, name)),
            None => None,
        }
    }

    /// The first focused workspace.
    pub fn focused_workspace(&self) -> (r: Option<&Workspace>)
        ensures
            match self.spec_workspaces() {
                Some(s) => found(r, s, ws_focused()),
                None => r is None,
            },
    {
        match &self.workspaces {
            Some(ws) => find_workspace(ws, &WsQuery::Focused),
            None => None,
        }
    }

    /// The first workspace shown on `output`.
    pub fn visible_workspace_on(&self, output: &str) -> (r: Option<&Workspace>)
        ensures
            match self.spec_workspaces() {
                Some(s) => found(r, s, ws_visible_on(output@)),
                None => r is None,
            },
    {
        match &self.workspaces {
            Some(ws) => find_workspace(ws, &WsQuery::VisibleOn(output)),
            None => None,
        }
    }

    /// The output snapshot.
    pub fn outputs(&self) -> (r: Option<&Vec<Output>>)
        ensures
            match self.spec_outputs() {
                Some(s) => r is Some && r->Some_0@ == s,
                None => r is None,
            },
    {
        self.outputs.as_ref()
    }

    /// Keeps `fetched` as the output snapshot unless one was taken already.
    pub fn update_outputs(&mut self, fetched: Vec<Output>)
        ensures
            final(self).spec_outputs() == (match old(self).spec_outputs() {
                Some(s) => Some(s),
                None => Some(fetched@),
            }),
            final(self).spec_workspaces() == old(self).spec_workspaces(),
            final(self).mapping == old(self).mapping,
            final(self).connection == old(self).connection,
    {
        if self.outputs.is_none() {
            self.outputs = Some(fetched);
        }
    }

    /// Forgets the output snapshot.
    pub fn reset_outputs(&mut self)
        ensures
            final(self).spec_outputs() is None,
            final(self).spec_workspaces() == old(self).spec_workspaces(),
            final(self).mapping == old(self).mapping,
            final(self).connection == old(self).connection,
    {
        self.outputs = None;
    }

    /// Replaces the output snapshot with `fetched`.
    pub fn force_update_outputs(&mut self, fetched: Vec<Output>)
        ensures
            final(self).spec_outputs() == Some(fetched@),
            final(self).spec_workspaces() == old(self).spec_workspaces(),
            final(self).mapping == old(self).mapping,
            final(self).connection == old(self).connection,
    {
        self.reset_outputs();
        self.update_outputs(fetched);
    }

    /// The first output whose name is `name` or whose descriptor is `identifier`.
    pub fn output_by_name_or_identifier(&self, name: Option<&str>, identifier: Option<&str>) -> (r:
        Option<&Output>)
        ensures
            match self.spec_outputs() {
                Some(s) => found(
                    r,
                    s,
                    out_matches(
                        crate::connection::opt_view(name),
                        crate::connection::opt_view(identifier),
                    ),
                ),
                None => r is None,
            },
    {
        match &self.outputs {
            Some(os) => find_output(os, &OutQuery::NameOrIdentifier(name, identifier)),
            None => None,
        }
    }

    /// The first focused output.
    pub fn focused_output(&self) -> (r: Option<&Output>)
        ensures
            match self.spec_outputs() {
                Some(s) => found(r, s, out_focused()),
                None => r is None,
            },
    {
        match &self.outputs {
            Some(os) => find_output(os, &OutQuery::Focused),
            None => None,
        }
    }
}

impl Sway {
    /// Replaces the mapping with the one that the JSON text `json` holds.
    pub fn load_mapping(&mut self, json: &str) -> (r: Result<(), WsError>)
        ensures
            r is Ok ==> final(self).mapping.wf(),
            r is Err ==> r->Err_0 is SerdeJson && final(self).mapping == old(self).mapping,
            forall|m: Map<Seq<char>, Seq<i32>>| #[trigger] crate::mapping::mapping_json(m) == json@
                && m.dom().finite() ==> r is Ok && final(self).mapping@ == m,
            final(self).spec_workspaces() == old(self).spec_workspaces(),
            final(self).spec_outputs() == old(self).spec_outputs(),
            final(self).connection == old(self).connection,
    {
        match Mapping::from_json(json) {
            Ok(m) => {
                self.mapping = m;
                Ok(())
            },
            Err(e) => Err(e),
        }
    }

    /// The JSON text of the mapping, to be saved.
    pub fn save_mapping(&self) -> (r: Result<String, WsError>)
        ensures
            r is Ok,
            r->Ok_0@ == crate::mapping::mapping_json(self.mapping@),
    {
        self.mapping.to_json()
    }
}

} // verus!
