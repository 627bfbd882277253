use vstd::prelude::*;
use crate::error::Error;

verus! {

/// A request on the wire: what is asked, under a number that the client chose.
pub struct Request<T> {
    pub id: u64,
    pub content: T,
}

/// A response on the wire: the answer, under the number of the request that it answers.
pub struct Response<T> {
    pub for_id: u64,
    pub result: T,
}

/// `rand::random`, for a number of 64 bits. Nothing is believed of the number that comes.
#[verifier::external_body]
pub(crate) fn random_id() -> (r: u64) {
    rand::random::<u64>()
}

impl<T> Request<T> {
    /// The request for `content` under a number drawn at random.
    pub fn draw(content: T) -> (r: Request<T>)
        ensures
            r.content == content,
    {
        Request { id: random_id(), content }
    }

    /// The request for `content` under the number `id`.
    pub fn new(id: u64, content: T) -> (r: Request<T>)
        ensures
            r.id == id,
            r.content == content,
    {
        Request { id, content }
    }

    /// The response that carries `result` as the answer to this request.
    pub fn answer<B>(&self, result: B) -> (r: Response<B>)
        ensures
            r.for_id == self.id,
            r.result == result,
    {
        Response { for_id: self.id, result }
    }
}

impl<T> Response<T> {
    /// The answer that the response carries, where it answers the request `request_id`; a
    /// response for another request is a protocol error.
    pub fn checked(self, request_id: u64) -> (r: Result<T, Error>)
        ensures
            r == if self.for_id == request_id {
                Ok::<T, Error>(self.result)
            } else {
                Err::<T, Error>(Error::ProtocolError)
            },
    {
        if self.for_id == request_id {
            Ok(self.result)
        } else {
            Err(Error::ProtocolError)
        }
    }
}

/// A message as it goes over the wire: its text and the end of the line.
pub fn frame(message: &str) -> (r: String)
    ensures
        r@ == message@.push('\n'),
{
    proof {
        reveal_strlit("\n");
    }
    let mut r = String::from_str(message);
    r.append("\n");
    assert(r@ =~= message@.push('\n'));
    r
}

/// What happened when the handler of a client went on with its work.
#[derive(Clone, Copy, Debug, PartialEq, Eq, Structural)]
pub enum ClientEvent {
    /// Reading a line failed.
    ReadFailed,
    /// Nothing was there to read.
    Nothing,
    /// A line was read that is no request.
    Undecodable,
    /// A request was read.
    Request,
    /// The response could not be put into text.
    Unencodable,
    /// Writing the response failed.
    WriteFailed,
    /// The response was written.
    Written,
}

/// What the handler of a client does next.
#[derive(Clone, Copy, Debug, PartialEq, Eq, Structural)]
pub enum ClientAction {
    /// Close the connection.
    Close,
    /// Hand the request to the service and write its answer.
    Answer,
    /// Read the next line; before that, report the failure where `report` is set, and wait
    /// `pause_ms` milliseconds.
    Read { report: bool, pause_ms: u64 },
}

/// Time that the handler of a client lets pass after a failure or an empty read.
pub const CLIENT_PAUSE_MS: u64 = 100;

/// Decides how the handler of a client goes on: a failure of the connection closes it, a
/// failure to decode or encode is reported and the next line is read, a request is answered.
pub fn serve_client(event: ClientEvent) -> (r: ClientAction)
    ensures
        r == match event {
            ClientEvent::ReadFailed => ClientAction::Close,
            ClientEvent::WriteFailed => ClientAction::Close,
            ClientEvent::Nothing => ClientAction::Read { report: false, pause_ms: CLIENT_PAUSE_MS },
            ClientEvent::Undecodable => ClientAction::Read {
                report: true,
                pause_ms: CLIENT_PAUSE_MS,
            },
            ClientEvent::Unencodable => ClientAction::Read {
                report: true,
                pause_ms: CLIENT_PAUSE_MS,
            },
            ClientEvent::Request => ClientAction::Answer,
            ClientEvent::Written => ClientAction::Read { report: false, pause_ms: 0 },
        },
{
    match event {
        ClientEvent::ReadFailed => ClientAction::Close,
        ClientEvent::WriteFailed => ClientAction::Close,
        ClientEvent::Nothing => ClientAction::Read { report: false, pause_ms: CLIENT_PAUSE_MS },
        ClientEvent::Undecodable => ClientAction::Read { report: true, pause_ms: CLIENT_PAUSE_MS },
        ClientEvent::Unencodable => ClientAction::Read { report: true, pause_ms: CLIENT_PAUSE_MS },
        ClientEvent::Request => ClientAction::Answer,
        ClientEvent::Written => ClientAction::Read { report: false, pause_ms: 0 },
    }
}

} // verus!
