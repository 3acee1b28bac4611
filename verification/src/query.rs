//! The resolution of one question: the cache first, then the authoritative
//! store, then a race between the upstream resolvers.
//!
//! The stages are the variants of `Pipeline`. `QueryHandler::do_query` makes
//! the first step, which looks into the cache. Where the answer is the
//! store's or an upstream resolver's to give, the step ends in a stage that
//! says what to fetch; the driver fetches it and hands it to that stage,
//! which makes the next step. No stage is entered twice.

use crate::addr::SocketAddress;
use crate::cache::{after_get, after_put, hit, AnswerCache, CacheKey, CachedAnswer};
use crate::config::{texts, NameServer, NameServerView};
use crate::race::{Race, RaceStatus, RaceStatusView, RaceView, Report};
use crate::record::{synthesize, synthesized, ResourceRecord, ResourceRecordView};
use crate::store::{choose_row, chosen, rows_view, StoreReply};
use crate::wire::{records_view, Header, Query, QueryView, Request, RequestView};
use vstd::prelude::*;

verus! {

/// Why a question got no answer.
#[derive(Clone, Copy, Debug, PartialEq, Eq, Structural)]
pub enum ResolveError {
    /// Every upstream resolver failed or ran out of time, or there is none.
    RaceExhausted,
}

/// The stage that waits for the authoritative store. The driver asks the
/// store for the rows held for the name of `query` under the type word
/// `label`, and hands the reply to `QueryHandler::query_local`.
#[derive(Debug)]
pub struct LocalCheck {
    pub header: Header,
    pub query: Query,
    pub label: &'static str,
}

/// The stage that waits for the upstream resolvers. The driver sends
/// `request` to each of `targets` once, each bounded by a timeout, and hands
/// each outcome to `UpstreamCheck::report` under the target's place in the
/// list.
#[derive(Debug)]
pub struct UpstreamCheck {
    pub request: Request,
    pub targets: Vec<NameServer>,
    pub race: Race,
}

/// Where the resolution of one question stands.
#[derive(Debug)]
pub enum Pipeline {
    /// The cache had nothing; the authoritative store is to be asked.
    LocalCheck(LocalCheck),
    /// Neither the cache nor the store had an answer; the race is on.
    UpstreamCheck(UpstreamCheck),
    /// The question is answered with these records, which may be none.
    Done(Vec<ResourceRecord>),
    /// The question has no answer.
    Failed(ResolveError),
}

/// The resolver's fixed set of upstream transports.
#[derive(Debug, Clone, PartialEq, Eq)]
pub struct QueryHandler {
    pub udp_upstreams: Vec<SocketAddress>,
    pub doh_upstreams: Vec<String>,
}

/// The key under which the answer to a question is cached.
pub open spec fn cache_key(query: QueryView) -> CacheKey {
    CacheKey { domain: query.name, record_type: query.query_type }
}

/// The targets of a race, in the order in which they are numbered: every
/// UDP nameserver, then every DNS-over-HTTPS endpoint.
pub open spec fn race_targets(udp: Seq<SocketAddress>, doh: Seq<Seq<char>>) -> Seq<
    NameServerView,
> {
    Seq::new(
        udp.len() + doh.len(),
        |i: int|
            if i < udp.len() {
                NameServerView::Udp(udp[i])
            } else {
                NameServerView::Doh(doh[i - udp.len()])
            },
    )
}

/// The values of a sequence of upstream resolvers, one for one.
pub open spec fn servers_view(servers: Seq<NameServer>) -> Seq<NameServerView> {
    servers.map_values(|s: NameServer| s@)
}

/// The record that the authoritative store's reply gives for a question, if
/// it gives one: the record made from the value of the chosen row, where a
/// row answers for the name and the type asked and its value is well formed.
pub open spec fn local_answer(query: QueryView, reply: StoreReply) -> Option<ResourceRecordView> {
    match reply {
        StoreReply::Rows(rows) => match chosen(rows_view(rows@), query.name, query.query_type) {
            Some(place) => synthesized(
                query.name,
                query.query_type,
                rows@[place].value@,
                rows@[place].ttl,
            ),
            None => None,
        },
        StoreReply::Failed => None,
    }
}

/// The cache after the answers to a question were written back at `now`. A
/// cached answer is one record, so an answer of one record is written and
/// any other is not.
pub open spec fn written_back(
    cache: Map<CacheKey, CachedAnswer>,
    query: QueryView,
    answers: Seq<ResourceRecordView>,
    now: u64,
) -> Map<CacheKey, CachedAnswer> {
    if answers.len() == 1 {
        after_put(cache, cache_key(query), answers[0], now)
    } else {
        cache
    }
}

impl QueryHandler {
    /// A handler that asks these upstream resolvers.
    pub fn new(udp_upstreams: Vec<SocketAddress>, doh_upstreams: Vec<String>) -> (handler: Self)
        ensures
            handler.udp_upstreams == udp_upstreams,
            handler.doh_upstreams == doh_upstreams,
    {
        QueryHandler { udp_upstreams, doh_upstreams }
    }

    /// Whether `stage` is the stage that a question enters when it goes
    /// upstream: a race among all targets, none of which has reported, over
    /// the request for this question. With no target to ask, the question
    /// fails at once.
    pub open spec fn enters_upstream(&self, header: Header, query: QueryView, stage: Pipeline) -> bool {
        if self.udp_upstreams@.len() + self.doh_upstreams@.len() == 0 {
            stage == Pipeline::Failed(ResolveError::RaceExhausted)
        } else {
            &&& stage matches Pipeline::UpstreamCheck(check)
            &&& check.request@ == (RequestView { header, query })
            &&& servers_view(check.targets@) == race_targets(
                self.udp_upstreams@,
                texts(self.doh_upstreams@),
            )
            &&& check.race@ == RaceView::start(check.targets@.len())
        }
    }

    /// The cache stage: the record cached for the question at the second
    /// `now`, if a fresh one is there. An expired one is dropped.
    pub fn query_cache(&self, query: &Query, cache: &mut AnswerCache, now: u64) -> (r: Option<
        ResourceRecord,
    >)
        ensures
            final(cache)@ == after_get(old(cache)@, cache_key(query@), now),
            match r {
                Some(record) => hit(old(cache)@, cache_key(query@), now) == Some(record@),
                None => hit(old(cache)@, cache_key(query@), now) is None,
            },
    {
        cache.get(query.name.as_str(), query.query_type, now)
    }

    /// The upstream stage's plan for a question: the request to send, the
    /// targets to send it to, each of them once, and the race among them.
    pub fn query_upstreams(&self, header: &Header, query: &Query) -> (check: UpstreamCheck)
        ensures
            check.request@ == (RequestView { header: *header, query: query@ }),
            servers_view(check.targets@) == race_targets(
                self.udp_upstreams@,
                texts(self.doh_upstreams@),
            ),
            check.race@ == RaceView::start(check.targets@.len()),
    {
        let mut targets: Vec<NameServer> = Vec::new();
        let mut i: usize = 0;
        while i < self.udp_upstreams.len()
            invariant
                i <= self.udp_upstreams.len(),
                targets@.len() == i,
                forall|k: int|
                    0 <= k < i ==> (#[trigger] targets@[k])@ == NameServerView::Udp(
                        self.udp_upstreams@[k],
                    ),
            decreases self.udp_upstreams.len() - i,
        {
            targets.push(NameServer::Udp(self.udp_upstreams[i]));
            i = i + 1;
        }
        let mut j: usize = 0;
        while j < self.doh_upstreams.len()
            invariant
                j <= self.doh_upstreams.len(),
                targets@.len() == self.udp_upstreams.len() + j,
                forall|k: int|
                    0 <= k < self.udp_upstreams.len() ==> (#[trigger] targets@[k])@
                        == NameServerView::Udp(self.udp_upstreams@[k]),
                forall|k: int|
                    0 <= k < j ==> (#[trigger] targets@[self.udp_upstreams.len() + k])@
                        == NameServerView::Doh(self.doh_upstreams@[k]@),
            decreases self.doh_upstreams.len() - j,
        {
            targets.push(NameServer::Doh(self.doh_upstreams[j].clone()));
            j = j + 1;
        }
        proof {
            let expected = race_targets(self.udp_upstreams@, texts(self.doh_upstreams@));
            assert forall|k: int| 0 <= k < targets@.len() implies servers_view(targets@)[k]
                == expected[k] by {
                if k >= self.udp_upstreams.len() {
                    assert(targets@[self.udp_upstreams.len() + (k - self.udp_upstreams.len())]@
                        == NameServerView::Doh(
                        self.doh_upstreams@[k - self.udp_upstreams.len()]@,
                    ));
                }
            }
            assert(servers_view(targets@) =~= expected);
        }
        let request = Request { header: *header, query: query.duplicate() };
        let race = Race::start(targets.len());
        UpstreamCheck { request, targets, race }
    }

    /// Sends a question upstream: into a race, or into failure where there
    /// is nobody to ask.
    fn go_upstream(&self, header: &Header, query: &Query) -> (stage: Pipeline)
        ensures
            self.enters_upstream(*header, query@, stage),
    {
        let check = self.query_upstreams(header, query);
        assert(servers_view(check.targets@).len() == check.targets@.len());
        assert(texts(self.doh_upstreams@).len() == self.doh_upstreams@.len());
        if check.targets.len() == 0 {
            Pipeline::Failed(ResolveError::RaceExhausted)
        } else {
            Pipeline::UpstreamCheck(check)
        }
    }

    /// The first step for a question, at the second `now`: the cache stage.
    ///
    /// A fresh cached record answers the question at once. After a miss, a
    /// question of a type that the authoritative store serves goes to the
    /// store, and a question of any other type goes upstream without the
    /// store being asked.
    pub fn do_query(&self, header: &Header, query: &Query, cache: &mut AnswerCache, now: u64) -> (stage:
        Pipeline)
        ensures
            final(cache)@ == after_get(old(cache)@, cache_key(query@), now),
            stage is LocalCheck ==> query.query_type.supported(),
            match hit(old(cache)@, cache_key(query@), now) {
                Some(record) => stage matches Pipeline::Done(records) && records_view(records@)
                    == seq![record],
                None => if query.query_type.supported() {
                    &&& stage matches Pipeline::LocalCheck(check)
                    &&& check.header == *header
                    &&& check.query@ == query@
                    &&& query.query_type.spec_label() == Some(check.label@)
                } else {
                    self.enters_upstream(*header, query@, stage)
                },
            },
    {
        if let Some(record) = self.query_cache(query, cache, now) {
            let mut records: Vec<ResourceRecord> = Vec::new();
            records.push(record);
            assert(records_view(records@) =~= seq![record@]);
            return Pipeline::Done(records);
        }
        match query.query_type.label() {
            Some(label) => Pipeline::LocalCheck(
                LocalCheck { header: *header, query: query.duplicate(), label },
            ),
            None => self.go_upstream(header, query),
        }
    }

    /// The local stage, at the second `now`: what the authoritative store's
    /// reply makes of the question.
    ///
    /// Where a row answers for the name and the type asked, and the value of
    /// the chosen row is well formed for the type, the record made from it
    /// answers the question and is written to the cache. In every other case
    /// (no such row, the store failed, a malformed value) the question goes
    /// upstream.
    pub fn query_local(&self, check: LocalCheck, reply: StoreReply, cache: &mut AnswerCache, now: u64) -> (stage:
        Pipeline)
        ensures
            !(stage is LocalCheck),
            match local_answer(check.query@, reply) {
                Some(record) => {
                    &&& stage matches Pipeline::Done(records)
                    &&& records_view(records@) == seq![record]
                    &&& final(cache)@ == after_put(
                        old(cache)@,
                        cache_key(check.query@),
                        record,
                        now,
                    )
                },
                None => {
                    &&& final(cache)@ == old(cache)@
                    &&& self.enters_upstream(check.header, check.query@, stage)
                },
            },
    {
        let found = match &reply {
            StoreReply::Rows(rows) => match choose_row(
                rows,
                check.query.name.as_str(),
                check.query.query_type,
            ) {
                Some(place) => synthesize(
                    check.query.name.as_str(),
                    check.query.query_type,
                    rows[place].value.as_str(),
                    rows[place].ttl,
                ),
                None => None,
            },
            StoreReply::Failed => None,
        };
        match found {
            Some(record) => {
                cache.put(check.query.name.as_str(), check.query.query_type, record.duplicate(), now);
                let mut records: Vec<ResourceRecord> = Vec::new();
                records.push(record);
                assert(records_view(records@) =~= seq![record@]);
                Pipeline::Done(records)
            },
            None => self.go_upstream(&check.header, &check.query),
        }
    }
}

impl UpstreamCheck {
    /// The upstream stage, at the second `now`: takes the outcome of asking
    /// target number `target`, which is the bytes it answered with, or
    /// `None` where it failed or ran out of time.
    ///
    /// The report that wins the race answers the question with the answer
    /// records of the winning response, which are written back to the cache.
    /// The report that loses it fails the question. After any other report
    /// the stage goes on waiting, with the report taken into the race.
    pub fn report(self, target: usize, reply: Option<&[u8]>, cache: &mut AnswerCache, now: u64) -> (stage:
        Pipeline)
        ensures
            !(stage is LocalCheck),
            ({
                let report = Report {
                    target: target as int,
                    reply: match reply {
                        Some(bytes) => Some(bytes@),
                        None => None,
                    },
                };
                match self.race@.status(report) {
                    RaceStatusView::Won(response) => {
                        &&& stage matches Pipeline::Done(records)
                        &&& records_view(records@) == response.answers
                        &&& final(cache)@ == written_back(
                            old(cache)@,
                            self.request@.query,
                            response.answers,
                            now,
                        )
                    },
                    RaceStatusView::Exhausted => {
                        &&& stage == Pipeline::Failed(ResolveError::RaceExhausted)
                        &&& final(cache)@ == old(cache)@
                    },
                    _ => {
                        &&& stage matches Pipeline::UpstreamCheck(check)
                        &&& check.race@ == self.race@.after(report)
                        &&& check.request == self.request
                        &&& check.targets == self.targets
                        &&& final(cache)@ == old(cache)@
                    },
                }
            }),
    {
        let mut check = self;
        match check.race.report(target, reply) {
            RaceStatus::Won(response) => {
                let records = response.answers;
                if records.len() == 1 {
                    cache.put(
                        check.request.query.name.as_str(),
                        check.request.query.query_type,
                        records[0].duplicate(),
                        now,
                    );
                }
                Pipeline::Done(records)
            },
            RaceStatus::Exhausted => Pipeline::Failed(ResolveError::RaceExhausted),
            _ => Pipeline::UpstreamCheck(check),
        }
    }
}

/// An answer of one record that was written back at `resolved_at` answers
/// the same question from the cache for as long as its TTL lasts: `do_query`
/// then finds a hit, which is that record with the seconds that are left as
/// its TTL, and ends in `Done` without a stage for the store or the race.
pub proof fn lemma_answer_is_cached(
    cache: Map<CacheKey, CachedAnswer>,
    query: QueryView,
    answers: Seq<ResourceRecordView>,
    resolved_at: u64,
    asked_at: u64,
)
    requires
        answers.len() == 1,
        resolved_at <= asked_at,
        asked_at - resolved_at < answers[0].ttl,
        resolved_at + answers[0].ttl <= u64::MAX,
    ensures
        hit(written_back(cache, query, answers, resolved_at), cache_key(query), asked_at) == Some(
            ResourceRecordView {
                name: answers[0].name,
                ttl: (answers[0].ttl - (asked_at - resolved_at)) as u32,
                rdata: answers[0].rdata,
            },
        ),
{
}

/// Once the TTL of a written-back answer has run out, the same question
/// misses the cache: `do_query` finds no hit and goes on to the store or the
/// race.
pub proof fn lemma_expired_answer_is_missed(
    cache: Map<CacheKey, CachedAnswer>,
    query: QueryView,
    answers: Seq<ResourceRecordView>,
    resolved_at: u64,
    asked_at: u64,
)
    requires
        answers.len() == 1,
        resolved_at <= asked_at,
        asked_at - resolved_at >= answers[0].ttl,
    ensures
        hit(written_back(cache, query, answers, resolved_at), cache_key(query), asked_at) is None,
{
}

/// A question is answered from the store by a record of the type that was
/// asked, and by no other.
pub proof fn lemma_local_answer_is_of_the_type_asked(query: QueryView, reply: StoreReply)
    ensures
        local_answer(query, reply) matches Some(record) ==> record.rdata.record_type()
            == query.query_type && query.query_type.supported(),
{
}

} // verus!
