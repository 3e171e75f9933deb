//! The client of a remote store: each operation as one HTTP request, and
//! what a response means.

use vstd::prelude::*;
use crate::layout::Partition;

verus! {

/// One operation on a store of notes.
pub enum Operation {
    /// List the notes of a partition.
    List { partition: Partition },
    /// Save the note in the body of the request.
    Put,
    /// Delete a note from a partition.
    Delete { partition: Partition, id: String },
    /// Move a note to the archive.
    Archive { id: String },
    /// Move a note back from the archive.
    Unarchive { id: String },
    /// Reorder the notes named in the body of the request.
    Reorder,
}

/// An operation as a mathematical value.
pub enum OperationView {
    List { partition: Partition },
    Put,
    Delete { partition: Partition, id: Seq<char> },
    Archive { id: Seq<char> },
    Unarchive { id: Seq<char> },
    Reorder,
}

impl View for Operation {
    type V = OperationView;

    open spec fn view(&self) -> OperationView {
        match *self {
            Operation::List { partition } => OperationView::List { partition },
            Operation::Put => OperationView::Put,
            Operation::Delete { partition, id } => OperationView::Delete { partition, id: id@ },
            Operation::Archive { id } => OperationView::Archive { id: id@ },
            Operation::Unarchive { id } => OperationView::Unarchive { id: id@ },
            Operation::Reorder => OperationView::Reorder,
        }
    }
}

/// The method of an HTTP request.
#[derive(Clone, Copy, Debug, PartialEq, Eq, Structural)]
pub enum Method {
    Get,
    Post,
    Delete,
}

/// One HTTP request to a remote store.
pub struct Request {
    pub method: Method,
    pub url: String,
    /// The value of the `Authorization` header, where one is sent.
    pub authorization: Option<String>,
}

/// The method by which an operation is asked for.
pub open spec fn method_of(operation: OperationView) -> Method {
    match operation {
        OperationView::List { .. } => Method::Get,
        OperationView::Put => Method::Post,
        OperationView::Delete { .. } => Method::Delete,
        OperationView::Archive { .. } => Method::Post,
        OperationView::Unarchive { .. } => Method::Post,
        OperationView::Reorder => Method::Post,
    }
}

/// The path under the base URL at which an operation is asked for.
pub open spec fn path_of(operation: OperationView) -> Seq<char> {
    match operation {
        OperationView::List { partition: Partition::Active } => "/notes"@,
        OperationView::List { partition: Partition::Archived } => "/notes/archive"@,
        OperationView::Put => "/notes"@,
        OperationView::Delete { partition: Partition::Active, id } => "/notes/"@ + id,
        OperationView::Delete { partition: Partition::Archived, id } => "/notes/"@ + id
            + "/archive"@,
        OperationView::Archive { id } => "/notes/"@ + id + "/archive"@,
        OperationView::Unarchive { id } => "/notes/"@ + id + "/unarchive"@,
        OperationView::Reorder => "/notes/reorder"@,
    }
}

/// The request that asks a remote store for an operation: the method and
/// path of the operation under the base URL, and the credential, if one is
/// set, as the `Authorization` header, unchanged.
pub fn request_for(base_url: &str, auth: Option<&String>, operation: &Operation) -> (out: Request)
    ensures
        out.method == method_of(operation@),
        out.url@ == base_url@ + path_of(operation@),
        match auth {
            Some(token) => out.authorization.is_some() && out.authorization.unwrap()@ == token@,
            None => out.authorization.is_none(),
        },
{
    let mut url = base_url.to_owned();
    let method = match operation {
        Operation::List { partition } => {
            match partition {
                Partition::Active => url.append("/notes"),
                Partition::Archived => url.append("/notes/archive"),
            }
            Method::Get
        },
        Operation::Put => {
            url.append("/notes");
            Method::Post
        },
        Operation::Delete { partition, id } => {
            url.append("/notes/");
            url.append(id.as_str());
            match partition {
                Partition::Active => {},
                Partition::Archived => url.append("/archive"),
            }
            assert(url@ =~= base_url@ + path_of(operation@));
            Method::Delete
        },
        Operation::Archive { id } => {
            url.append("/notes/");
            url.append(id.as_str());
            url.append("/archive");
            assert(url@ =~= base_url@ + path_of(operation@));
            Method::Post
        },
        Operation::Unarchive { id } => {
            url.append("/notes/");
            url.append(id.as_str());
            url.append("/unarchive");
            assert(url@ =~= base_url@ + path_of(operation@));
            Method::Post
        },
        Operation::Reorder => {
            url.append("/notes/reorder");
            Method::Post
        },
    };
    let authorization = match auth {
        Some(token) => Some(token.clone()),
        None => None,
    };
    Request { method, url, authorization }
}

/// Why an operation on a remote store failed.
#[derive(Clone, Copy, Debug, PartialEq, Eq, Structural)]
pub enum RemoteError {
    /// No response came: the connection failed, timed out, or the name of
    /// the server did not resolve.
    Transport,
    /// The server answered with this status, which is not a success.
    Status(u16),
}

/// What the status of a response means: a status from 200 to 299 is
/// success, any other is a failure that carries the status.
pub fn check_status(status: u16) -> (out: Result<(), RemoteError>)
    ensures
        out == if 200 <= status <= 299 {
            Ok::<(), RemoteError>(())
        } else {
            Err::<(), RemoteError>(RemoteError::Status(status))
        },
{
    if 200 <= status && status <= 299 {
        Ok(())
    } else {
        Err(RemoteError::Status(status))
    }
}

/// What the outcome of a request means. A request that got no response
/// failed in transport; a response is judged by its status.
pub fn check_response(status: Option<u16>) -> (out: Result<(), RemoteError>)
    ensures
        out == match status {
            Some(code) => if 200 <= code <= 299 {
                Ok::<(), RemoteError>(())
            } else {
                Err::<(), RemoteError>(RemoteError::Status(code))
            },
            None => Err::<(), RemoteError>(RemoteError::Transport),
        },
{
    match status {
        Some(code) => check_status(code),
        None => Err(RemoteError::Transport),
    }
}

} // verus!
