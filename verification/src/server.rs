//! One datagram in, one response out: what the listener decides.
//!
//! The socket is the driver's. It hands each datagram to
//! `DNSServer::handle_query`. A request opens an exchange, whose questions
//! the driver resolves one after another, in their order, handing each
//! outcome to `Exchange::settle`. When every question is answered the
//! exchange gives the response; when one has failed it gives none. A
//! datagram that does not decode opens no exchange, and so gets no response.

use crate::addr::SocketAddress;
use crate::config::{doh_targets, texts, udp_targets, UpstreamConfig};
use crate::query::{QueryHandler, ResolveError};
use crate::record::{ResourceRecord, ResourceRecordView};
use crate::wire::{
    decode, decode_header, decoded, decoded_header, records_view, Header, Query, QueryView,
    Response, ResponseView,
};
use vstd::prelude::*;

verus! {

/// The resolver: where it listens and how it answers.
#[derive(Debug, Clone, PartialEq, Eq)]
pub struct DNSServer {
    pub listen: SocketAddress,
    pub query_handler: QueryHandler,
}

/// One request and the response that grows for it: the header of the
/// request, its questions, how many of them are settled, the answers gathered
/// so far, and the failure that ended it, if one did.
#[derive(Debug, Clone, PartialEq, Eq)]
pub struct Exchange {
    pub request: Header,
    pub queries: Vec<Query>,
    pub settled: usize,
    pub answers: Vec<ResourceRecord>,
    pub failure: Option<ResolveError>,
}

/// The mathematical value of an `Exchange`.
pub struct ExchangeView {
    pub request: Header,
    pub queries: Seq<QueryView>,
    pub settled: nat,
    pub answers: Seq<ResourceRecordView>,
    pub failure: Option<ResolveError>,
}

impl View for Exchange {
    type V = ExchangeView;

    open spec fn view(&self) -> ExchangeView {
        ExchangeView {
            request: self.request,
            queries: self.queries@.map_values(|q: Query| q@),
            settled: self.settled as nat,
            answers: records_view(self.answers@),
            failure: self.failure,
        }
    }
}

/// How the resolution of one question ended: with its answer records, or
/// with a failure.
pub enum Outcome {
    Answered(Seq<ResourceRecordView>),
    Failed(ResolveError),
}

/// Whether a datagram holds a request: its header decodes, and so does the
/// message.
pub open spec fn is_request(datagram: Seq<u8>) -> bool {
    decoded_header(datagram) is Some && decoded(datagram) is Some
}

/// The exchange that a datagram opens, if it opens one: the header and the
/// questions of the request it holds, none of them settled. A datagram that
/// holds no request opens none.
pub open spec fn opened(datagram: Seq<u8>) -> Option<ExchangeView> {
    if is_request(datagram) {
        Some(
            ExchangeView {
                request: decoded_header(datagram)->0,
                queries: decoded(datagram)->0.queries,
                settled: 0,
                answers: Seq::empty(),
                failure: None,
            },
        )
    } else {
        None
    }
}

impl ExchangeView {
    /// Whether a question is waiting to be resolved: nothing has failed,
    /// and not every question is settled.
    pub open spec fn waiting(self) -> bool {
        self.failure is None && self.settled < self.queries.len()
    }

    /// The exchange after the outcome of its next question. An answer is
    /// added behind the answers that are there. A failure ends the
    /// exchange. An exchange that waits for nothing stays as it is.
    pub open spec fn after(self, outcome: Outcome) -> ExchangeView {
        if !self.waiting() {
            self
        } else {
            match outcome {
                Outcome::Answered(records) => ExchangeView {
                    request: self.request,
                    queries: self.queries,
                    settled: self.settled + 1,
                    answers: self.answers + records,
                    failure: None,
                },
                Outcome::Failed(error) => ExchangeView {
                    request: self.request,
                    queries: self.queries,
                    settled: self.settled,
                    answers: self.answers,
                    failure: Some(error),
                },
            }
        }
    }

    /// The exchange after a run of outcomes, in their order.
    pub open spec fn after_all(self, outcomes: Seq<Outcome>) -> ExchangeView
        decreases outcomes.len(),
    {
        if outcomes.len() == 0 {
            self
        } else {
            self.after_all(outcomes.drop_last()).after(outcomes.last())
        }
    }

    /// The response of the exchange: there is one when every question is
    /// settled and none has failed. It has the header of a response to the
    /// request, and the answers in the order of the questions.
    pub open spec fn response(self) -> Option<ResponseView> {
        if self.failure is None && self.settled >= self.queries.len() {
            Some(
                ResponseView {
                    header: Header::spec_response_from_request(self.request),
                    answers: self.answers,
                },
            )
        } else {
            None
        }
    }
}

impl DNSServer {
    /// A resolver for the configuration: it listens where the configuration
    /// says and asks the configured upstream resolvers, sorted by transport.
    pub fn new(config: UpstreamConfig) -> (server: Self)
        ensures
            server.listen == config.listen,
            server.query_handler.udp_upstreams@ == udp_targets(config.upstream_nameservers@),
            texts(server.query_handler.doh_upstreams@) == doh_targets(
                config.upstream_nameservers@,
            ),
    {
        let (udp_upstreams, doh_upstreams) = config.split();
        DNSServer {
            listen: config.listen,
            query_handler: QueryHandler::new(udp_upstreams, doh_upstreams),
        }
    }

    /// Takes one datagram. A request opens an exchange; anything else is
    /// dropped. Nothing of the datagram stays behind in the server.
    pub fn handle_query(&self, datagram: &[u8]) -> (exchange: Option<Exchange>)
        ensures
            match exchange {
                Some(open) => opened(datagram@) == Some(open@),
                None => opened(datagram@) is None,
            },
    {
        match (decode_header(datagram), decode(datagram)) {
            (Some(request), Some(message)) => {
                let open = Exchange {
                    request,
                    queries: message.queries,
                    settled: 0,
                    answers: Vec::new(),
                    failure: None,
                };
                assert(open@.answers =~= Seq::empty());
                Some(open)
            },
            _ => None,
        }
    }
}

impl Exchange {
    /// The question to resolve next, if one is waiting: the first that is
    /// not settled, unless a question has failed.
    pub fn next_query(&self) -> (query: Option<Query>)
        ensures
            match query {
                Some(next) => self@.waiting() && next@ == self@.queries[self@.settled as int],
                None => !self@.waiting(),
            },
    {
        if self.failure.is_none() && self.settled < self.queries.len() {
            Some(self.queries[self.settled].duplicate())
        } else {
            None
        }
    }

    /// Takes the outcome of the question that `next_query` gave: its answer
    /// records, which are added behind those that are there, or the failure,
    /// which ends the exchange.
    pub fn settle(&mut self, outcome: Result<Vec<ResourceRecord>, ResolveError>)
        ensures
            final(self)@ == old(self)@.after(
                match outcome {
                    Ok(records) => Outcome::Answered(records_view(records@)),
                    Err(error) => Outcome::Failed(error),
                },
            ),
    {
        if self.failure.is_some() || self.settled >= self.queries.len() {
            return ;
        }
        match outcome {
            Ok(records) => {
                let mut records = records;
                let ghost added = records@;
                self.answers.append(&mut records);
                self.settled = self.settled + 1;
                assert(records_view(self.answers@) =~= records_view(old(self).answers@)
                    + records_view(added));
            },
            Err(error) => {
                self.failure = Some(error);
            },
        }
    }

    /// The response, when every question is settled and none has failed.
    pub fn response(self) -> (response: Option<Response>)
        ensures
            match response {
                Some(ready) => self@.response() == Some(ready@),
                None => self@.response() is None,
            },
    {
        if self.failure.is_none() && self.settled >= self.queries.len() {
            Some(
                Response {
                    header: Header::response_from_request(&self.request),
                    answers: self.answers,
                },
            )
        } else {
            None
        }
    }
}

/// A datagram that does not decode gets no response, and the request that
/// comes after it opens the exchange it would have opened alone.
pub proof fn lemma_garbage_then_request(garbage: Seq<u8>, request: Seq<u8>)
    requires
        !is_request(garbage),
        is_request(request),
    ensures
        opened(garbage) is None,
        opened(request) matches Some(open) && open.request == decoded_header(request)->0
            && open.queries == decoded(request)->0.queries && open.settled == 0
            && open.answers.len() == 0 && open.failure is None,
{
}

/// An exchange in which a question has failed gives no response, whatever
/// is handed to it afterwards.
pub proof fn lemma_failure_ends_exchange(exchange: ExchangeView, later: Seq<Outcome>)
    requires
        exchange.failure is Some,
    ensures
        exchange.after_all(later) == exchange,
        exchange.after_all(later).response() is None,
    decreases later.len(),
{
    if later.len() > 0 {
        lemma_failure_ends_exchange(exchange, later.drop_last());
    }
}

/// The answers of an exchange whose questions were all answered are the
/// answers of the questions, in the order of the questions, and its response
/// carries them under the header of the request.
pub proof fn lemma_answers_in_order(open: ExchangeView, answers: Seq<Seq<ResourceRecordView>>)
    requires
        open.settled == 0,
        open.failure is None,
        open.answers.len() == 0,
        answers.len() == open.queries.len(),
    ensures
        open.after_all(answers.map_values(|records| Outcome::Answered(records))).response() == Some(
            ResponseView {
                header: Header::spec_response_from_request(open.request),
                answers: answers.flatten(),
            },
        ),
{
    lemma_answers_so_far(open, answers, answers.len());
    assert(answers.take(answers.len() as int) =~= answers);
}

/// After the first `n` questions were answered, the exchange holds their
/// answers in order and waits for question number `n`.
proof fn lemma_answers_so_far(open: ExchangeView, answers: Seq<Seq<ResourceRecordView>>, n: nat)
    requires
        open.settled == 0,
        open.failure is None,
        open.answers.len() == 0,
        n <= answers.len() == open.queries.len(),
    ensures
        open.after_all(answers.take(n as int).map_values(|records| Outcome::Answered(records)))
            == (ExchangeView {
            request: open.request,
            queries: open.queries,
            settled: n,
            answers: answers.take(n as int).flatten(),
            failure: None,
        }),
    decreases n,
{
    let outcomes = answers.take(n as int).map_values(|records| Outcome::Answered(records));
    if n == 0 {
        assert(answers.take(0).flatten() =~= Seq::<ResourceRecordView>::empty());
        assert(open.answers =~= Seq::<ResourceRecordView>::empty());
    } else {
        lemma_answers_so_far(open, answers, (n - 1) as nat);
        let earlier = answers.take(n - 1);
        assert(outcomes.drop_last() =~= earlier.map_values(|records| Outcome::Answered(records)));
        assert(outcomes.last() == Outcome::Answered(answers[n - 1]));
        assert(answers.take(n as int) =~= earlier.push(answers[n - 1]));
        earlier.lemma_flatten_push(answers[n - 1]);
    }
}

} // verus!
