//! What the library knows of the compositor: snapshots of workspaces and
//! outputs, the part of the window tree that locates a mark, and the errors.
use vstd::prelude::*;

verus! {

#[verifier::external_type_specification]
#[verifier::external_body]
pub struct ExIoError(std::io::Error);

#[verifier::external_type_specification]
#[verifier::external_body]
pub struct ExJsonError(serde_json::Error);

#[verifier::external_type_specification]
#[verifier::external_body]
pub struct ExSwayError(swayipc::Error);

/// Why an operation failed.
#[derive(Debug)]
pub enum WsError {
    /// Reading or writing a file failed.
    Io(std::io::Error),
    /// A JSON text could not be read or written.
    SerdeJson(serde_json::Error),
    /// The compositor could not be reached or answered with an error.
    Sway(swayipc::Error),
    /// No workspace is focused.
    NoFocusedWorkspace,
    /// The workspaces could not be obtained.
    NoWorkspaces,
    /// No output is focused.
    NoFocusedOutput,
    /// The outputs could not be obtained.
    NoOutputs,
    /// A workspace was asked for by neither number nor name.
    NeitherNumNorNameProvided,
    /// No window bears the mark that was set.
    MarkNotFound,
    /// A node of the window tree lacks a number or a name.
    UnexpectedTree,
}

impl WsError {
    /// A sentence that describes the error, for the kinds that carry no
    /// outside error value; `None` for the others.
    pub fn message(&self) -> (r: Option<&'static str>)
        ensures
            r is None <==> (self is Io || self is SerdeJson || self is Sway),
            r is Some ==> r->Some_0@ == match *self {
                WsError::NoFocusedWorkspace => "no focused workspace exists"@,
                WsError::NoWorkspaces => "could not get workspaces"@,
                WsError::NoFocusedOutput => "no focused output exists"@,
                WsError::NoOutputs => "could not get outputs"@,
                WsError::NeitherNumNorNameProvided => "you must provide either num or name"@,
                WsError::MarkNotFound => "previously set mark was not found"@,
                WsError::UnexpectedTree => "tree does not return expected output"@,
                _ => Seq::empty(),
            },
    {
        match self {
            WsError::Io(_) => None,
            WsError::SerdeJson(_) => None,
            WsError::Sway(_) => None,
            WsError::NoFocusedWorkspace => Some("no focused workspace exists"),
            WsError::NoWorkspaces => Some("could not get workspaces"),
            WsError::NoFocusedOutput => Some("no focused output exists"),
            WsError::NoOutputs => Some("could not get outputs"),
            WsError::NeitherNumNorNameProvided => Some("you must provide either num or name"),
            WsError::MarkNotFound => Some("previously set mark was not found"),
            WsError::UnexpectedTree => Some("tree does not return expected output"),
        }
    }
}

/// A workspace as the compositor reports it. Name-only workspaces have a
/// negative number.
#[derive(Clone, Debug, PartialEq, Eq)]
pub struct Workspace {
    pub num: i32,
    pub name: String,
    /// The name of the output that shows the workspace.
    pub output: String,
    pub focused: bool,
    pub visible: bool,
}

/// An output (a display) as the compositor reports it.
#[derive(Clone, Debug, PartialEq, Eq)]
pub struct Output {
    pub name: String,
    pub make: String,
    pub model: String,
    pub serial: String,
    pub focused: bool,
}

/// A window of the tree, with the marks it bears.
#[derive(Clone, Debug, PartialEq, Eq)]
pub struct TreeWindow {
    pub marks: Vec<String>,
}

/// A workspace node of the tree and the windows directly under it.
#[derive(Clone, Debug, PartialEq, Eq)]
pub struct TreeWorkspace {
    pub num: Option<i32>,
    pub name: Option<String>,
    pub windows: Vec<TreeWindow>,
}

/// An output node of the tree and the workspaces under it.
#[derive(Clone, Debug, PartialEq, Eq)]
pub struct TreeOutput {
    pub name: Option<String>,
    pub workspaces: Vec<TreeWorkspace>,
}

/// `s` followed by a space.
pub open spec fn spaced(s: Seq<char>) -> Seq<char> {
    s.push(' ')
}

/// The descriptor of an output: make, model and serial joined by spaces.
pub open spec fn descriptor(o: Output) -> Seq<char> {
    spaced(o.make@) + spaced(o.model@) + o.serial@
}

impl Output {
    /// The descriptor of this output: make, model and serial joined by spaces.
    pub fn identifier(&self) -> (r: String)
        ensures
            r@ == descriptor(*self),
    {
        let mut v: Vec<char> = crate::text::chars_of(self.make.as_str());
        v.push(' ');
        crate::text::push_str(&mut v, self.model.as_str());
        v.push(' ');
        crate::text::push_str(&mut v, self.serial.as_str());
        crate::text::string_of(v.as_slice())
    }
}

/// The index of the first element of `s` that satisfies `p`.
pub open spec fn first_where<T>(s: Seq<T>, p: spec_fn(T) -> bool) -> Option<int> {
    if exists|i: int| 0 <= i < s.len() && #[trigger] p(s[i]) {
        Some(
            choose|i: int|
                0 <= i < s.len() && #[trigger] p(s[i]) && forall|j: int| 0 <= j < i ==> !p(s[j]),
        )
    } else {
        None
    }
}

/// An element that satisfies `p`, with none before it, is the first one.
pub proof fn lemma_first_where_found<T>(s: Seq<T>, p: spec_fn(T) -> bool, i: int)
    requires
        0 <= i < s.len(),
        p(s[i]),
        forall|j: int| 0 <= j < i ==> !p(#[trigger] s[j]),
    ensures
        first_where(s, p) == Some(i),
{
    let k = choose|k: int|
        0 <= k < s.len() && #[trigger] p(s[k]) && forall|j: int| 0 <= j < k ==> !p(s[j]);
    assert(0 <= k < s.len() && p(s[k]) && forall|j: int| 0 <= j < k ==> !p(s[j]));
    if k < i {
        assert(!p(s[k]));
    } else if k > i {
        assert(!p(s[i]));
    }
}

/// Without an element that satisfies `p` there is no first one.
pub proof fn lemma_first_where_none<T>(s: Seq<T>, p: spec_fn(T) -> bool)
    requires
        forall|j: int| 0 <= j < s.len() ==> !p(#[trigger] s[j]),
    ensures
        first_where(s, p) is None,
{
}

} // verus!
