//! The errors of this library.

use frequenz_microgrid_component_graph::Error as GraphError;
use vstd::prelude::*;

verus! {

/// The kind of error that occurred.
#[derive(Debug, Clone, Copy, PartialEq, Eq, Structural)]
pub enum ErrorKind {
    ComponentGraphError,
    ComponentDataError,
    ConnectionFailure,
    FormulaEngineError,
    InvalidComponent,
    InvalidConfig,
    Internal,
    APIServerError,
}

impl ErrorKind {
    /// The name of the kind.
    pub open spec fn spec_name(self) -> Seq<char> {
        match self {
            ErrorKind::ComponentGraphError => "ComponentGraphError"@,
            ErrorKind::ComponentDataError => "ComponentDataError"@,
            ErrorKind::ConnectionFailure => "ConnectionFailure"@,
            ErrorKind::FormulaEngineError => "FormulaEngineError"@,
            ErrorKind::InvalidComponent => "InvalidComponent"@,
            ErrorKind::InvalidConfig => "InvalidConfig"@,
            ErrorKind::Internal => "Internal"@,
            ErrorKind::APIServerError => "APIServerError"@,
        }
    }

    /// The name of the kind.
    pub fn name(self) -> (name: &'static str)
        ensures
            name@ == self.spec_name(),
    {
        match self {
            ErrorKind::ComponentGraphError => "ComponentGraphError",
            ErrorKind::ComponentDataError => "ComponentDataError",
            ErrorKind::ConnectionFailure => "ConnectionFailure",
            ErrorKind::FormulaEngineError => "FormulaEngineError",
            ErrorKind::InvalidComponent => "InvalidComponent",
            ErrorKind::InvalidConfig => "InvalidConfig",
            ErrorKind::Internal => "Internal",
            ErrorKind::APIServerError => "APIServerError",
        }
    }
}

/// An error that occurred in this library.
#[derive(Debug, Clone, PartialEq)]
pub struct Error {
    kind: ErrorKind,
    desc: String,
}

impl Error {
    /// The kind of error that occurred.
    pub closed spec fn spec_kind(&self) -> ErrorKind {
        self.kind
    }

    /// What is said of the error.
    pub closed spec fn spec_desc(&self) -> Seq<char> {
        self.desc@
    }

    /// Whether this is the error of the given kind and description.
    pub open spec fn says(&self, kind: ErrorKind, desc: Seq<char>) -> bool {
        self.spec_kind() == kind && self.spec_desc() == desc
    }

    fn of_kind(kind: ErrorKind, desc: String) -> (r: Self)
        ensures
            r.says(kind, desc@),
    {
        Error { kind, desc }
    }

    /// An error of the component graph.
    pub fn component_graph_error(desc: String) -> (r: Self)
        ensures
            r.says(ErrorKind::ComponentGraphError, desc@),
    {
        Error::of_kind(ErrorKind::ComponentGraphError, desc)
    }

    /// An error in what is known of a component.
    pub fn component_data_error(desc: String) -> (r: Self)
        ensures
            r.says(ErrorKind::ComponentDataError, desc@),
    {
        Error::of_kind(ErrorKind::ComponentDataError, desc)
    }

    /// A failure to reach the other side of a channel or connection.
    pub fn connection_failure(desc: String) -> (r: Self)
        ensures
            r.says(ErrorKind::ConnectionFailure, desc@),
    {
        Error::of_kind(ErrorKind::ConnectionFailure, desc)
    }

    /// An error of the formula engine.
    pub fn formula_engine_error(desc: String) -> (r: Self)
        ensures
            r.says(ErrorKind::FormulaEngineError, desc@),
    {
        Error::of_kind(ErrorKind::FormulaEngineError, desc)
    }

    /// A component that does not fit the request.
    pub fn invalid_component(desc: String) -> (r: Self)
        ensures
            r.says(ErrorKind::InvalidComponent, desc@),
    {
        Error::of_kind(ErrorKind::InvalidComponent, desc)
    }

    /// A configuration that cannot be used.
    pub fn invalid_config(desc: String) -> (r: Self)
        ensures
            r.says(ErrorKind::InvalidConfig, desc@),
    {
        Error::of_kind(ErrorKind::InvalidConfig, desc)
    }

    /// A state that should not occur.
    pub fn internal(desc: String) -> (r: Self)
        ensures
            r.says(ErrorKind::Internal, desc@),
    {
        Error::of_kind(ErrorKind::Internal, desc)
    }

    /// An error reported by the API server.
    pub fn api_server_error(desc: String) -> (r: Self)
        ensures
            r.says(ErrorKind::APIServerError, desc@),
    {
        Error::of_kind(ErrorKind::APIServerError, desc)
    }

    /// The error of the component graph that `error` describes.
    pub fn from_graph_error(error: GraphError) -> (r: Self)
        ensures
            r.says(ErrorKind::ComponentGraphError, graph_error_text(error)),
    {
        Error::component_graph_error(describe_graph_error(&error))
    }

    /// The kind of error that occurred.
    pub fn kind(&self) -> (r: ErrorKind)
        ensures
            r == self.spec_kind(),
    {
        self.kind
    }

    /// The text of the error: its kind, a colon and its description.
    pub open spec fn spec_text(&self) -> Seq<char> {
        self.spec_kind().spec_name() + ": "@ + self.spec_desc()
    }

    /// The text of the error: its kind, a colon and its description.
    pub fn to_text(&self) -> (r: String)
        ensures
            r@ == self.spec_text(),
    {
        let mut text = String::from_str(self.kind.name());
        text.append(": ");
        text.append(self.desc.as_str());
        text
    }
}

/// An error of the component graph, from the graph's own crate.
#[verifier::external_type_specification]
#[verifier::external_body]
pub struct ExGraphError(GraphError);

/// The text of an error of the component graph.
pub uninterp spec fn graph_error_text(error: GraphError) -> Seq<char>;

/// Calls the `Display` of the graph's error. The text is a function of the
/// error alone; what it reads is left to the graph's crate.
#[verifier::external_body]
pub(crate) fn describe_graph_error(error: &GraphError) -> (text: String)
    ensures
        text@ == graph_error_text(*error),
{
    error.to_string()
}

}
