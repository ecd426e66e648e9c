//! Errors of the service.
use vstd::prelude::*;
use crate::runtime::{CoreError, CoreErrorView, core_error_text};

verus! {

/// Why a connection, or the service, ended.
#[derive(Debug)]
pub enum ServerError {
    Io(String),
    Tls(String),
    Core(CoreError),
}

/// What a service error says.
#[verifier::ext_equal]
pub enum ServerErrorView {
    Io(Seq<char>),
    Tls(Seq<char>),
    Core(CoreErrorView),
}

impl View for ServerError {
    type V = ServerErrorView;

    open spec fn view(&self) -> ServerErrorView {
        match self {
            ServerError::Io(message) => ServerErrorView::Io(message@),
            ServerError::Tls(message) => ServerErrorView::Tls(message@),
            ServerError::Core(error) => ServerErrorView::Core(error@),
        }
    }
}

/// The message of a service error.
pub open spec fn server_error_text(error: ServerErrorView) -> Seq<char> {
    match error {
        ServerErrorView::Io(message) => message,
        ServerErrorView::Tls(message) => message,
        ServerErrorView::Core(error) => core_error_text(error),
    }
}

impl ServerError {
    /// The message of the error.
    pub fn message(&self) -> (text: String)
        ensures
            text@ == server_error_text(self@),
    {
        match self {
            ServerError::Io(message) => message.clone(),
            ServerError::Tls(message) => message.clone(),
            ServerError::Core(error) => error.message(),
        }
    }
}

impl From<CoreError> for ServerError {
    fn from(error: CoreError) -> (wrapped: ServerError) {
        ServerError::Core(error)
    }
}

impl vstd::std_specs::convert::FromSpecImpl<CoreError> for ServerError {
    open spec fn obeys_from_spec() -> bool {
        true
    }

    open spec fn from_spec(error: CoreError) -> ServerError {
        ServerError::Core(error)
    }
}

} // verus!
