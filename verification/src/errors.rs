//! The errors that the application services report.
use vstd::prelude::*;
use crate::domain::{domain_error_text, DomainError, DomainErrorView};

verus! {

/// Errors of the application services.
#[derive(Debug)]
pub enum ApplicationError {
    CollectionNotFound(String),
    CollectionAlreadyExists(String),
    NotFound(String),
    IndexError { collection: String, source: Box<ApplicationError> },
    SearchError { collection: String, source: Box<ApplicationError> },
    InfrastructureError(String),
    InvalidInput(String),
    DomainError(DomainError),
    SchemaError(String),
}

/// An application error with its texts as character sequences.
pub enum AppErrorView {
    CollectionNotFound(Seq<char>),
    CollectionAlreadyExists(Seq<char>),
    NotFound(Seq<char>),
    IndexError { collection: Seq<char>, source: Box<AppErrorView> },
    SearchError { collection: Seq<char>, source: Box<AppErrorView> },
    InfrastructureError(Seq<char>),
    InvalidInput(Seq<char>),
    DomainError(DomainErrorView),
    SchemaError(Seq<char>),
}

impl View for ApplicationError {
    type V = AppErrorView;

    open spec fn view(&self) -> AppErrorView
        decreases self,
    {
        match self {
            ApplicationError::CollectionNotFound(s) => AppErrorView::CollectionNotFound(s@),
            ApplicationError::CollectionAlreadyExists(s) => AppErrorView::CollectionAlreadyExists(
                s@,
            ),
            ApplicationError::NotFound(s) => AppErrorView::NotFound(s@),
            ApplicationError::IndexError { collection, source } => AppErrorView::IndexError {
                collection: collection@,
                source: Box::new((**source).view()),
            },
            ApplicationError::SearchError { collection, source } => AppErrorView::SearchError {
                collection: collection@,
                source: Box::new((**source).view()),
            },
            ApplicationError::InfrastructureError(s) => AppErrorView::InfrastructureError(s@),
            ApplicationError::InvalidInput(s) => AppErrorView::InvalidInput(s@),
            ApplicationError::DomainError(e) => AppErrorView::DomainError(e@),
            ApplicationError::SchemaError(s) => AppErrorView::SchemaError(s@),
        }
    }
}

/// The message of an application error.
pub open spec fn app_error_text(e: AppErrorView) -> Seq<char>
    decreases e,
{
    match e {
        AppErrorView::CollectionNotFound(s) => "Collection not found: "@ + s,
        AppErrorView::CollectionAlreadyExists(s) => "Collection already exists: "@ + s,
        AppErrorView::NotFound(s) => "Document not found: "@ + s,
        AppErrorView::IndexError { collection, source } => "Indexing failed in collection '"@
            + collection + "': "@ + app_error_text(*source),
        AppErrorView::SearchError { collection, source } => "Search failed in collection '"@
            + collection + "': "@ + app_error_text(*source),
        AppErrorView::InfrastructureError(s) => "Infrastructure error: "@ + s,
        AppErrorView::InvalidInput(s) => "Invalid input: "@ + s,
        AppErrorView::DomainError(d) => "Domain validation error: "@ + domain_error_text(d),
        AppErrorView::SchemaError(s) => "Schema operation failed: "@ + s,
    }
}

impl ApplicationError {
    /// The error's message.
    pub fn message(&self) -> (res: String)
        ensures
            res@ == app_error_text(self@),
        decreases self,
    {
        let mut res = String::new();
        match self {
            ApplicationError::CollectionNotFound(s) => {
                res.append("Collection not found: ");
                res.append(s.as_str());
            },
            ApplicationError::CollectionAlreadyExists(s) => {
                res.append("Collection already exists: ");
                res.append(s.as_str());
            },
            ApplicationError::NotFound(s) => {
                res.append("Document not found: ");
                res.append(s.as_str());
            },
            ApplicationError::IndexError { collection, source } => {
                res.append("Indexing failed in collection '");
                res.append(collection.as_str());
                res.append("': ");
                let inner = source.message();
                res.append(inner.as_str());
            },
            ApplicationError::SearchError { collection, source } => {
                res.append("Search failed in collection '");
                res.append(collection.as_str());
                res.append("': ");
                let inner = source.message();
                res.append(inner.as_str());
            },
            ApplicationError::InfrastructureError(s) => {
                res.append("Infrastructure error: ");
                res.append(s.as_str());
            },
            ApplicationError::InvalidInput(s) => {
                res.append("Invalid input: ");
                res.append(s.as_str());
            },
            ApplicationError::DomainError(d) => {
                res.append("Domain validation error: ");
                let inner = d.message();
                res.append(inner.as_str());
            },
            ApplicationError::SchemaError(s) => {
                res.append("Schema operation failed: ");
                res.append(s.as_str());
            },
        }
        res
    }
}

/// The HTTP status and body that answer an application error: input and
/// validation errors are the client's (400), missing collections and
/// documents are not found (404), an existing collection is a conflict
/// (409), and the rest are internal errors (500), whose details stay out of
/// the body.
pub open spec fn error_response(e: AppErrorView) -> (u16, Seq<char>) {
    match e {
        AppErrorView::InvalidInput(m) => (400, m),
        AppErrorView::CollectionNotFound(n) => (404, "Collection '"@ + n + "' not found"@),
        AppErrorView::CollectionAlreadyExists(n) => (409, "Collection '"@ + n + "' already exists"@),
        AppErrorView::SchemaError(m) => (500, "Schema operation failed: "@ + m),
        AppErrorView::NotFound(id) => (404, "Document '"@ + id + "' not found"@),
        AppErrorView::IndexError { collection, source } => (
            500,
            "Indexing failed in collection '"@ + collection + "'"@,
        ),
        AppErrorView::SearchError { collection, source } => (
            500,
            "Search failed in collection '"@ + collection + "'"@,
        ),
        AppErrorView::InfrastructureError(m) => (500, "An internal server error occurred"@),
        AppErrorView::DomainError(d) => (400, domain_error_text(d)),
    }
}

/// The HTTP status code and body that answer an application error (see
/// `error_response`).
pub fn map_application_error_to_response(err: ApplicationError) -> (res: (u16, String))
    ensures
        (res.0, res.1@) == error_response(err@),
{
    match err {
        ApplicationError::InvalidInput(msg) => (400, msg),
        ApplicationError::CollectionNotFound(name) => {
            let mut body = String::new();
            body.append("Collection '");
            body.append(name.as_str());
            body.append("' not found");
            (404, body)
        },
        ApplicationError::CollectionAlreadyExists(name) => {
            let mut body = String::new();
            body.append("Collection '");
            body.append(name.as_str());
            body.append("' already exists");
            (409, body)
        },
        ApplicationError::SchemaError(msg) => {
            let mut body = String::new();
            body.append("Schema operation failed: ");
            body.append(msg.as_str());
            (500, body)
        },
        ApplicationError::NotFound(id) => {
            let mut body = String::new();
            body.append("Document '");
            body.append(id.as_str());
            body.append("' not found");
            (404, body)
        },
        ApplicationError::IndexError { collection, source } => {
            let mut body = String::new();
            body.append("Indexing failed in collection '");
            body.append(collection.as_str());
            body.append("'");
            (500, body)
        },
        ApplicationError::SearchError { collection, source } => {
            let mut body = String::new();
            body.append("Search failed in collection '");
            body.append(collection.as_str());
            body.append("'");
            (500, body)
        },
        ApplicationError::InfrastructureError(_) => {
            let mut body = String::new();
            body.append("An internal server error occurred");
            (500, body)
        },
        ApplicationError::DomainError(d) => (400, d.message()),
    }
}

} // verus!
