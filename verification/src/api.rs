//! The messages that reach the previewer from its front ends (a web API or a
//! desktop shell), and the errors of handing them on.
use vstd::prelude::*;

use crate::graph_desc::{AnimeGraphCommand, AnimeGraphDesc};
use crate::text::concat;

verus! {

/// A request to load a glTF file.
#[derive(Debug, Clone)]
pub struct LoadGltf {
    pub gltf: String,
}

/// A message from the web API to the previewer.
#[derive(Debug, Clone)]
pub enum ToBevyPayload<W> {
    /// Load the glTF file at the given path.
    LoadGltf { gltf: String },
    /// Build the animation graph from a description.
    SetAnimGraph { anim_graph: AnimeGraphDesc<W> },
    /// Run commands on the animation graph.
    IssueAnimGraphCommand { commands: Vec<AnimeGraphCommand<W>> },
}

impl<W> From<LoadGltf> for ToBevyPayload<W> {
    fn from(payload: LoadGltf) -> (r: Self) {
        ToBevyPayload::LoadGltf { gltf: payload.gltf }
    }
}

impl<W> vstd::std_specs::convert::FromSpecImpl<LoadGltf> for ToBevyPayload<W> {
    open spec fn obeys_from_spec() -> bool {
        true
    }

    open spec fn from_spec(v: LoadGltf) -> Self {
        ToBevyPayload::LoadGltf { gltf: v.gltf }
    }
}

/// A message from the desktop shell to the previewer.
#[derive(Debug, Clone)]
pub enum ToPrevewerCommand<W> {
    /// Load the glTF file at the given path.
    LoadGltf { gltf: String },
    /// Build the animation graph from a description.
    SetAnimGraph { anim_graph: AnimeGraphDesc<W> },
    /// Run commands on the animation graph.
    IssueAnimGraphCommand { commands: Vec<AnimeGraphCommand<W>> },
    /// A debugging command, by name.
    Debug(String),
}

/// A message could not be handed to the previewer.
#[derive(Debug, Clone)]
pub struct SendError {
    pub message: String,
}

impl SendError {
    /// An error with the given message.
    pub fn new(message: String) -> (r: Self)
        ensures
            r.message@ == message@,
    {
        Self { message }
    }

    /// The text of this error: its message.
    pub fn display(&self) -> (r: String)
        ensures
            r@ == self.message@,
    {
        self.message.clone()
    }
}

/// The text of an error that wraps a `SendError`.
pub open spec fn send_error_text(e: SendError) -> Seq<char> {
    "SendError: "@ + e.message@
}

fn wrapped_send_error_text(e: &SendError) -> (r: String)
    ensures
        r@ == send_error_text(*e),
{
    concat("SendError: ", e.message.as_str())
}

/// Loading a glTF file failed.
#[derive(Debug, Clone)]
pub enum ErrorLoadGltf {
    SendError(SendError),
}

/// Setting the animation graph failed.
#[derive(Debug, Clone)]
pub enum ErrorSetGraph {
    SendError(SendError),
}

/// Issuing animation graph commands failed.
#[derive(Debug, Clone)]
pub enum ErrorIssueGraphCommands {
    SendError(SendError),
}

impl From<SendError> for ErrorLoadGltf {
    fn from(e: SendError) -> (r: Self) {
        ErrorLoadGltf::SendError(e)
    }
}

impl vstd::std_specs::convert::FromSpecImpl<SendError> for ErrorLoadGltf {
    open spec fn obeys_from_spec() -> bool {
        true
    }

    open spec fn from_spec(v: SendError) -> Self {
        ErrorLoadGltf::SendError(v)
    }
}

impl From<SendError> for ErrorSetGraph {
    fn from(e: SendError) -> (r: Self) {
        ErrorSetGraph::SendError(e)
    }
}

impl vstd::std_specs::convert::FromSpecImpl<SendError> for ErrorSetGraph {
    open spec fn obeys_from_spec() -> bool {
        true
    }

    open spec fn from_spec(v: SendError) -> Self {
        ErrorSetGraph::SendError(v)
    }
}

impl From<SendError> for ErrorIssueGraphCommands {
    fn from(e: SendError) -> (r: Self) {
        ErrorIssueGraphCommands::SendError(e)
    }
}

impl vstd::std_specs::convert::FromSpecImpl<SendError> for ErrorIssueGraphCommands {
    open spec fn obeys_from_spec() -> bool {
        true
    }

    open spec fn from_spec(v: SendError) -> Self {
        ErrorIssueGraphCommands::SendError(v)
    }
}

impl ErrorLoadGltf {
    /// The text of this error: `SendError: ` and the message.
    pub fn display(&self) -> (r: String)
        ensures
            r@ == match self {
                ErrorLoadGltf::SendError(e) => send_error_text(*e),
            },
    {
        match self {
            ErrorLoadGltf::SendError(e) => wrapped_send_error_text(e),
        }
    }
}

impl ErrorSetGraph {
    /// The text of this error: `SendError: ` and the message.
    pub fn display(&self) -> (r: String)
        ensures
            r@ == match self {
                ErrorSetGraph::SendError(e) => send_error_text(*e),
            },
    {
        match self {
            ErrorSetGraph::SendError(e) => wrapped_send_error_text(e),
        }
    }
}

impl ErrorIssueGraphCommands {
    /// The text of this error: `SendError: ` and the message.
    pub fn display(&self) -> (r: String)
        ensures
            r@ == match self {
                ErrorIssueGraphCommands::SendError(e) => send_error_text(*e),
            },
    {
        match self {
            ErrorIssueGraphCommands::SendError(e) => wrapped_send_error_text(e),
        }
    }
}

/// The greeting of the desktop shell.
pub fn greet(name: &str) -> (r: String)
    ensures
        r@ == "Hello, "@ + name@ + "! You've been greeted from Rust!"@,
{
    let mut s = concat("Hello, ", name);
    s.append("! You've been greeted from Rust!");
    s
}

} // verus!
