//! One exchange with the server as a state machine. The caller owns the
//! connection: it reports what happened on it as an event and carries out
//! the action that comes back, until the action is a response.
//!
//! Whatever happens, a response comes out: a failure of the connection at
//! any stage gives a synthetic response with status 500 that names the stage.

use crate::message::{
    failure_response, fields_of, BridgeRequest, BridgeResponse, Failure, ResponseModel,
    ServerEndpoint,
};
use crate::request::{request_head, serialize_head};
use crate::response::{early_response, read_failure_of, response_at_close, ResponseParser};
use crate::response_laws::lemma_diagnostic_not_empty;
use vstd::prelude::*;

verus! {

/// Where an exchange stands.
#[derive(Debug, Clone, Copy, PartialEq, Eq)]
pub enum Stage {
    /// The connection is being opened.
    Connecting,
    /// The head of the request is being written.
    SendingHead,
    /// The body of the request is being written.
    SendingBody,
    /// The response is being read.
    Receiving,
    /// The response was handed out.
    Finished,
}

/// What happened on the connection.
#[derive(Debug, Clone, PartialEq, Eq)]
pub enum Event {
    /// The connection is open.
    Connected,
    /// The connection could not be opened.
    ConnectFailed,
    /// The bytes of the last `Write` are written in full.
    Written,
    /// The bytes of the last `Write` could not be written.
    WriteFailed,
    /// These bytes were read.
    Received(Vec<u8>),
    /// The server has closed the connection.
    Closed,
    /// Reading failed.
    ReadFailed,
}

/// What the caller has to do next.
#[derive(Debug, Clone, PartialEq, Eq)]
pub enum Action {
    /// Write these bytes in full, then report `Written` or `WriteFailed`.
    Write(Vec<u8>),
    /// Read what comes next, then report `Received`, `Closed` or `ReadFailed`.
    Read,
    /// Hand this response back; the exchange is over.
    Respond(BridgeResponse),
}

/// The state of an exchange.
pub ghost struct ExchangeModel {
    pub stage: Stage,
    /// The head of the request, as long as it is not handed out for writing.
    pub head: Seq<u8>,
    /// The body of the request, as long as it is not handed out for writing.
    pub body: Seq<u8>,
    /// The bytes of the response that were reported.
    pub received: Seq<u8>,
}

/// `action` hands back a response with the content `m`.
pub open spec fn responds(action: Action, m: ResponseModel) -> bool {
    action matches Action::Respond(r) && r@ == m && r.wf()
}

/// `action` asks to write `bytes`.
pub open spec fn writes(action: Action, bytes: Seq<u8>) -> bool {
    action matches Action::Write(b) && b@ == bytes
}

/// The exchange ends with the response `m`.
pub open spec fn ends_with(pre: ExchangeModel, post: ExchangeModel, action: Action, m: ResponseModel) -> bool {
    &&& post == ExchangeModel { stage: Stage::Finished, ..pre }
    &&& responds(action, m)
}

/// The exchange goes on to the stage `stage` with `action`.
pub open spec fn moves_to(pre: ExchangeModel, post: ExchangeModel, stage: Stage) -> bool {
    post == ExchangeModel { stage, ..pre }
}

/// What `event` leads to in the state `pre`: the state `post` and `action`.
///
/// An event that cannot occur at a stage ends the exchange with the internal
/// failure. After the end, every event is answered with the internal failure.
pub open spec fn step_spec(pre: ExchangeModel, event: Event, post: ExchangeModel, action: Action) -> bool {
    match pre.stage {
        Stage::Connecting => match event {
            Event::Connected => {
                &&& post == ExchangeModel {
                    stage: Stage::SendingHead,
                    head: Seq::empty(),
                    ..pre
                }
                &&& writes(action, pre.head)
            },
            Event::ConnectFailed => ends_with(pre, post, action, failure_response(Failure::Connect)),
            _ => ends_with(pre, post, action, failure_response(Failure::Internal)),
        },
        Stage::SendingHead => match event {
            Event::Written => if pre.body.len() > 0 {
                &&& post == ExchangeModel {
                    stage: Stage::SendingBody,
                    body: Seq::empty(),
                    ..pre
                }
                &&& writes(action, pre.body)
            } else {
                moves_to(pre, post, Stage::Receiving) && action is Read
            },
            Event::WriteFailed => ends_with(pre, post, action, failure_response(Failure::SendHead)),
            _ => ends_with(pre, post, action, failure_response(Failure::Internal)),
        },
        Stage::SendingBody => match event {
            Event::Written => moves_to(pre, post, Stage::Receiving) && action is Read,
            Event::WriteFailed => ends_with(pre, post, action, failure_response(Failure::SendBody)),
            _ => ends_with(pre, post, action, failure_response(Failure::Internal)),
        },
        Stage::Receiving => match event {
            Event::Received(chunk) => {
                let received = pre.received + chunk@;
                match early_response(received) {
                    Some(m) => {
                        &&& post == ExchangeModel { stage: Stage::Finished, received, ..pre }
                        &&& responds(action, m)
                    },
                    None => {
                        &&& post == ExchangeModel { received, ..pre }
                        &&& action is Read
                    },
                }
            },
            Event::Closed => ends_with(pre, post, action, response_at_close(pre.received)),
            Event::ReadFailed => ends_with(
                pre,
                post,
                action,
                failure_response(read_failure_of(pre.received)),
            ),
            _ => ends_with(pre, post, action, failure_response(Failure::Internal)),
        },
        Stage::Finished => ends_with(pre, post, action, failure_response(Failure::Internal)),
    }
}

/// One exchange: a request on its way to the server and the response on
/// its way back.
pub struct Exchange {
    stage: Stage,
    head: Vec<u8>,
    body: Vec<u8>,
    parser: ResponseParser,
}

impl Exchange {
    /// The state of the exchange.
    pub closed spec fn model(&self) -> ExchangeModel {
        ExchangeModel {
            stage: self.stage,
            head: self.head@,
            body: self.body@,
            received: self.parser.received(),
        }
    }

    /// The parts of the exchange agree with its stage.
    pub closed spec fn wf(&self) -> bool {
        &&& self.parser.wf()
        &&& self.stage is Receiving ==> !self.parser.finished() && early_response(
            self.parser.received(),
        ) is None
        &&& (self.stage is Connecting || self.stage is SendingHead || self.stage is SendingBody)
            ==> !self.parser.finished() && self.parser.received() == Seq::<u8>::empty()
    }

    /// An exchange that carries `request` to `endpoint`. The caller opens a
    /// connection to the endpoint and reports `Connected` or `ConnectFailed`.
    pub fn begin(endpoint: &ServerEndpoint, request: BridgeRequest) -> (x: Exchange)
        ensures
            x.wf(),
            x.model() == (ExchangeModel {
                stage: Stage::Connecting,
                head: request_head(
                    endpoint.authority_spec(),
                    request.method@,
                    request.target@,
                    fields_of(request.headers@),
                    request.body@.len(),
                ),
                body: request.body@,
                received: Seq::empty(),
            }),
    {
        let head = serialize_head(endpoint, &request);
        Exchange { stage: Stage::Connecting, head, body: request.body, parser: ResponseParser::new() }
    }

    /// The stage that the exchange is in.
    pub fn stage(&self) -> (s: Stage)
        ensures
            s == self.model().stage,
    {
        self.stage
    }

    fn end(&mut self, failure: Failure) -> (action: Action)
        requires
            old(self).wf(),
        ensures
            final(self).wf(),
            ends_with(old(self).model(), final(self).model(), action, failure_response(failure)),
    {
        self.stage = Stage::Finished;
        Action::Respond(BridgeResponse::failure(failure))
    }

    /// Takes `event` and says what to do next.
    pub fn step(&mut self, event: Event) -> (action: Action)
        requires
            old(self).wf(),
        ensures
            final(self).wf(),
            step_spec(old(self).model(), event, final(self).model(), action),
    {
        match self.stage {
            Stage::Connecting => match event {
                Event::Connected => {
                    let mut bytes: Vec<u8> = Vec::new();
                    core::mem::swap(&mut self.head, &mut bytes);
                    self.stage = Stage::SendingHead;
                    Action::Write(bytes)
                },
                Event::ConnectFailed => self.end(Failure::Connect),
                _ => self.end(Failure::Internal),
            },
            Stage::SendingHead => match event {
                Event::Written => {
                    if self.body.len() > 0 {
                        let mut bytes: Vec<u8> = Vec::new();
                        core::mem::swap(&mut self.body, &mut bytes);
                        self.stage = Stage::SendingBody;
                        Action::Write(bytes)
                    } else {
                        self.stage = Stage::Receiving;
                        proof {
                            lemma_nothing_settles_nothing();
                        }
                        Action::Read
                    }
                },
                Event::WriteFailed => self.end(Failure::SendHead),
                _ => self.end(Failure::Internal),
            },
            Stage::SendingBody => match event {
                Event::Written => {
                    self.stage = Stage::Receiving;
                    proof {
                        lemma_nothing_settles_nothing();
                    }
                    Action::Read
                },
                Event::WriteFailed => self.end(Failure::SendBody),
                _ => self.end(Failure::Internal),
            },
            Stage::Receiving => match event {
                Event::Received(chunk) => {
                    match self.parser.feed(chunk.as_slice()) {
                        Some(response) => {
                            self.stage = Stage::Finished;
                            Action::Respond(response)
                        },
                        None => Action::Read,
                    }
                },
                Event::Closed => {
                    self.stage = Stage::Finished;
                    match self.parser.close() {
                        Some(response) => Action::Respond(response),
                        None => Action::Respond(BridgeResponse::failure(Failure::Internal)),
                    }
                },
                Event::ReadFailed => {
                    let failure = self.parser.read_failure();
                    self.end(failure)
                },
                _ => self.end(Failure::Internal),
            },
            Stage::Finished => self.end(Failure::Internal),
        }
    }
}

/// No bytes settle no response.
pub proof fn lemma_nothing_settles_nothing()
    ensures
        early_response(Seq::<u8>::empty()) is None,
{
}

/// No request is left without a response: a failure of the connection and
/// the end of the connection are answered with a response at every stage,
/// and the exchange is over then. For a failure the response has status 500
/// and a text as body.
pub proof fn lemma_failure_is_answered(
    pre: ExchangeModel,
    event: Event,
    post: ExchangeModel,
    action: Action,
)
    requires
        step_spec(pre, event, post, action),
        event is ConnectFailed || event is WriteFailed || event is ReadFailed || event is Closed,
    ensures
        action is Respond,
        action->Respond_0.wf(),
        post.stage is Finished,
        !(event is Closed && pre.stage is Receiving) ==> action->Respond_0@.status == 500
            && action->Respond_0@.body.len() > 0 && action->Respond_0@.headers == Map::<
            Seq<u8>,
            Seq<u8>,
        >::empty(),
{
    lemma_diagnostic_not_empty(Failure::Connect);
    lemma_diagnostic_not_empty(Failure::SendHead);
    lemma_diagnostic_not_empty(Failure::SendBody);
    lemma_diagnostic_not_empty(Failure::Internal);
    lemma_diagnostic_not_empty(read_failure_of(pre.received));
}

/// An exchange that is over stays over: whatever is reported then is
/// answered with the internal failure, and nothing more is written or read.
pub proof fn lemma_finished_stays(
    pre: ExchangeModel,
    event: Event,
    post: ExchangeModel,
    action: Action,
)
    requires
        step_spec(pre, event, post, action),
        pre.stage is Finished,
    ensures
        post == pre,
        responds(action, failure_response(Failure::Internal)),
{
}

} // verus!
