//! The race between upstream targets: every target is asked once, the first
//! reply that decodes wins, and the race is lost when every target has
//! failed.
//!
//! The race itself sends nothing. Whoever drives it asks each target and
//! reports what came back, in the order in which it came; `Race` decides.

use crate::wire::{decode, decoded, Message, MessageView};
use vstd::prelude::*;

verus! {

/// The seconds that one target has to answer. A target that has not
/// answered by then is reported as failed.
pub const ATTEMPT_TIMEOUT_SECONDS: u64 = 5;

/// How far a race has come.
#[derive(Clone, Copy, Debug, PartialEq, Eq, Structural)]
pub enum Phase {
    /// No reply has decoded yet, and some target has not reported.
    Racing,
    /// A reply has decoded.
    Won,
    /// Every target has reported, and no reply decoded.
    Exhausted,
}

/// What one report did to the race.
#[derive(Clone, Debug, PartialEq, Eq)]
pub enum RaceStatus {
    /// The race goes on.
    Waiting,
    /// This report won the race: here is the response.
    Won(Message),
    /// This report was the last one missing, and no target succeeded.
    Exhausted,
    /// The race was over before this report, which is discarded.
    Settled,
}

/// The mathematical value of a `RaceStatus`.
pub enum RaceStatusView {
    Waiting,
    Won(MessageView),
    Exhausted,
    Settled,
}

impl View for RaceStatus {
    type V = RaceStatusView;

    open spec fn view(&self) -> RaceStatusView {
        match self {
            RaceStatus::Waiting => RaceStatusView::Waiting,
            RaceStatus::Won(message) => RaceStatusView::Won(message@),
            RaceStatus::Exhausted => RaceStatusView::Exhausted,
            RaceStatus::Settled => RaceStatusView::Settled,
        }
    }
}

/// The mathematical value of a `Race`: which targets have reported, and the
/// phase.
pub struct RaceView {
    pub heard: Seq<bool>,
    pub phase: Phase,
}

/// What a target reports: the bytes it answered with, or `None` where it
/// failed or did not answer in time.
pub struct Report {
    pub target: int,
    pub reply: Option<Seq<u8>>,
}

impl Report {
    /// The response in the reply, if there is a reply and it decodes.
    pub open spec fn response(self) -> Option<MessageView> {
        match self.reply {
            Some(bytes) => decoded(bytes),
            None => None,
        }
    }
}

/// Whether target `t` is among those that reported.
pub open spec fn has_reported(reports: Seq<Report>, t: int) -> bool {
    exists|j: int| 0 <= j < reports.len() && (#[trigger] reports[j]).target == t
}

/// Whether report number `k` could win a race among `targets` targets: it
/// is the first report of one of the targets, and its reply decodes.
pub open spec fn could_win(reports: Seq<Report>, k: int, targets: nat) -> bool {
    &&& 0 <= reports[k].target < targets
    &&& reports[k].response() is Some
    &&& forall|j: int| 0 <= j < k ==> (#[trigger] reports[j]).target != reports[k].target
}

/// Whether every target has reported.
pub open spec fn all_heard(heard: Seq<bool>) -> bool {
    forall|i: int| 0 <= i < heard.len() ==> heard[i]
}

impl RaceView {
    /// A race among `targets` targets, before any report. With no target
    /// there is nobody to wait for, and the race is lost from the start.
    pub open spec fn start(targets: nat) -> RaceView {
        RaceView {
            heard: Seq::new(targets, |i: int| false),
            phase: if targets == 0 {
                Phase::Exhausted
            } else {
                Phase::Racing
            },
        }
    }

    /// Whether a report counts: the race is on, and the target is one of
    /// the race that has not reported before.
    pub open spec fn counts(self, report: Report) -> bool {
        &&& self.phase == Phase::Racing
        &&& 0 <= report.target < self.heard.len()
        &&& !self.heard[report.target]
    }

    /// The race after a report.
    pub open spec fn after(self, report: Report) -> RaceView {
        if !self.counts(report) {
            self
        } else {
            let heard = self.heard.update(report.target, true);
            RaceView {
                heard,
                phase: if report.response() is Some {
                    Phase::Won
                } else if all_heard(heard) {
                    Phase::Exhausted
                } else {
                    Phase::Racing
                },
            }
        }
    }

    /// What a report is answered with.
    pub open spec fn status(self, report: Report) -> RaceStatusView {
        if self.phase != Phase::Racing {
            RaceStatusView::Settled
        } else if !self.counts(report) {
            RaceStatusView::Waiting
        } else {
            match report.response() {
                Some(message) => RaceStatusView::Won(message),
                None => if all_heard(self.heard.update(report.target, true)) {
                    RaceStatusView::Exhausted
                } else {
                    RaceStatusView::Waiting
                },
            }
        }
    }

    /// The race after a run of reports, in their order.
    pub open spec fn after_all(self, reports: Seq<Report>) -> RaceView
        decreases reports.len(),
    {
        if reports.len() == 0 {
            self
        } else {
            self.after_all(reports.drop_last()).after(reports.last())
        }
    }
}

/// One race.
#[derive(Debug)]
pub struct Race {
    heard: Vec<bool>,
    phase: Phase,
}

impl View for Race {
    type V = RaceView;

    closed spec fn view(&self) -> RaceView {
        RaceView { heard: self.heard@, phase: self.phase }
    }
}

impl Race {
    /// Starts a race among `targets` targets, numbered from zero.
    pub fn start(targets: usize) -> (race: Self)
        ensures
            race@ == RaceView::start(targets as nat),
    {
        let mut heard: Vec<bool> = Vec::new();
        let mut i: usize = 0;
        while i < targets
            invariant
                i <= targets,
                heard@.len() == i,
                forall|k: int| 0 <= k < i ==> !heard@[k],
            decreases targets - i,
        {
            heard.push(false);
            i = i + 1;
        }
        let phase = if targets == 0 {
            Phase::Exhausted
        } else {
            Phase::Racing
        };
        assert(heard@ =~= Seq::new(targets as nat, |i: int| false));
        Race { heard, phase }
    }

    /// How far the race has come.
    pub fn phase(&self) -> (phase: Phase)
        ensures
            phase == self@.phase,
    {
        self.phase
    }

    /// Whether every target has reported.
    fn everyone_heard(&self) -> (yes: bool)
        ensures
            yes == all_heard(self.heard@),
    {
        let mut i: usize = 0;
        while i < self.heard.len()
            invariant
                i <= self.heard.len(),
                forall|k: int| 0 <= k < i ==> self.heard@[k],
            decreases self.heard.len() - i,
        {
            if !self.heard[i] {
                return false;
            }
            i = i + 1;
        }
        true
    }

    /// Takes the report of target number `target`: the bytes it answered
    /// with, or `None` where it failed or ran out of time.
    ///
    /// While the race is on, the first report of a target counts and any
    /// later one of the same target does not. A reply that decodes wins and
    /// ends the race. A failure, or a reply that does not decode, is that
    /// target's failure; with the last target's failure the race is lost.
    /// Once the race is over, every report is discarded.
    pub fn report(&mut self, target: usize, reply: Option<&[u8]>) -> (status: RaceStatus)
        ensures
            final(self)@ == old(self)@.after(
                Report {
                    target: target as int,
                    reply: match reply {
                        Some(bytes) => Some(bytes@),
                        None => None,
                    },
                },
            ),
            status@ == old(self)@.status(
                Report {
                    target: target as int,
                    reply: match reply {
                        Some(bytes) => Some(bytes@),
                        None => None,
                    },
                },
            ),
    {
        match self.phase {
            Phase::Racing => {},
            _ => {
                return RaceStatus::Settled;
            },
        }
        if target >= self.heard.len() || self.heard[target] {
            return RaceStatus::Waiting;
        }
        self.heard.set(target, true);
        let response = match reply {
            Some(bytes) => decode(bytes),
            None => None,
        };
        match response {
            Some(message) => {
                self.phase = Phase::Won;
                RaceStatus::Won(message)
            },
            None => {
                if self.everyone_heard() {
                    self.phase = Phase::Exhausted;
                    RaceStatus::Exhausted
                } else {
                    RaceStatus::Waiting
                }
            },
        }
    }
}

/// Reports one after another come to the same as the first run of them,
/// then the rest.
pub proof fn lemma_after_all_split(race: RaceView, first: Seq<Report>, rest: Seq<Report>)
    ensures
        race.after_all(first + rest) == race.after_all(first).after_all(rest),
    decreases rest.len(),
{
    if rest.len() == 0 {
        assert(first + rest =~= first);
    } else {
        lemma_after_all_split(race, first, rest.drop_last());
        assert((first + rest).drop_last() =~= first + rest.drop_last());
        assert((first + rest).last() == rest.last());
    }
}

/// A race that is over stays as it is, whatever is reported.
pub proof fn lemma_settled_stays(race: RaceView, reports: Seq<Report>)
    requires
        race.phase != Phase::Racing,
    ensures
        race.after_all(reports) == race,
    decreases reports.len(),
{
    if reports.len() > 0 {
        lemma_settled_stays(race, reports.drop_last());
    }
}

/// While no report could win, the race has heard exactly the targets that
/// have reported, nobody has won, and the race is lost exactly when all have
/// reported.
pub proof fn lemma_no_winner(targets: nat, reports: Seq<Report>)
    requires
        forall|k: int| 0 <= k < reports.len() ==> !could_win(reports, k, targets),
    ensures
        ({
            let race = RaceView::start(targets).after_all(reports);
            &&& race.heard.len() == targets
            &&& race.phase != Phase::Won
            &&& race.phase == Phase::Exhausted <==> all_heard(race.heard)
            &&& forall|t: int|
                0 <= t < targets ==> (#[trigger] race.heard[t] <==> has_reported(reports, t))
        }),
    decreases reports.len(),
{
    let start = RaceView::start(targets);
    if reports.len() == 0 {
        if targets > 0 {
            assert(!start.heard[0]);
        }
    } else {
        let earlier = reports.drop_last();
        let last = reports.last();
        let k = reports.len() - 1;
        assert forall|i: int| 0 <= i < earlier.len() implies !could_win(earlier, i, targets) by {
            assert(earlier[i] == reports[i]);
            if could_win(earlier, i, targets) {
                assert forall|j: int| 0 <= j < i implies (#[trigger] reports[j]).target
                    != reports[i].target by {
                    assert(earlier[j].target != earlier[i].target);
                }
                assert(could_win(reports, i, targets));
            }
        }
        lemma_no_winner(targets, earlier);
        let before = start.after_all(earlier);
        let race = before.after(last);
        if before.counts(last) {
            assert(!has_reported(earlier, last.target));
            assert forall|j: int| 0 <= j < k implies (#[trigger] reports[j]).target
                != reports[k].target by {
                assert(earlier[j].target == reports[j].target);
            }
            assert(!could_win(reports, k, targets));
            assert(last.response() is None);
        } else {
            assert(race == before);
        }
        assert forall|t: int| 0 <= t < targets implies (#[trigger] race.heard[t] <==> has_reported(
            reports,
            t,
        )) by {
            if race.heard[t] {
                if before.heard[t] {
                    let j = choose|j: int|
                        0 <= j < earlier.len() && (#[trigger] earlier[j]).target == t;
                    assert(reports[j].target == t);
                } else {
                    assert(reports[k].target == t);
                }
            }
            if has_reported(reports, t) {
                let j = choose|j: int| 0 <= j < reports.len() && (#[trigger] reports[j]).target == t;
                if j < earlier.len() {
                    assert(earlier[j].target == t);
                    assert(before.heard[t]);
                } else {
                    assert(last.target == t);
                    if !before.counts(last) && !before.heard[t] {
                        assert(before.phase == Phase::Exhausted);
                    }
                }
            }
        }
    }
}

/// The first report that could win does win, whatever the other targets
/// report before or after it: the race answers it with the response in its
/// reply, and discards every report after it.
pub proof fn lemma_first_good_reply_wins(targets: nat, reports: Seq<Report>, k: int)
    requires
        0 <= k < reports.len(),
        could_win(reports, k, targets),
        forall|j: int| 0 <= j < k ==> !could_win(reports, j, targets),
    ensures
        RaceView::start(targets).after_all(reports.take(k)).status(reports[k])
            == RaceStatusView::Won(reports[k].response()->0),
        RaceView::start(targets).after_all(reports).phase == Phase::Won,
        forall|j: int|
            k < j < reports.len() ==> RaceView::start(targets).after_all(
                #[trigger] reports.take(j),
            ).status(reports[j]) == RaceStatusView::Settled,
{
    let start = RaceView::start(targets);
    let earlier = reports.take(k);
    let winner = reports[k];
    assert forall|i: int| 0 <= i < earlier.len() implies !could_win(earlier, i, targets) by {
        assert(earlier[i] == reports[i]);
        if could_win(earlier, i, targets) {
            assert forall|j: int| 0 <= j < i implies (#[trigger] reports[j]).target
                != reports[i].target by {
                assert(earlier[j].target != earlier[i].target);
            }
            assert(could_win(reports, i, targets));
        }
    }
    lemma_no_winner(targets, earlier);
    let before = start.after_all(earlier);
    assert(!before.heard[winner.target]) by {
        if before.heard[winner.target] {
            let j = choose|j: int|
                0 <= j < earlier.len() && (#[trigger] earlier[j]).target == winner.target;
            assert(reports[j].target == winner.target);
        }
    }
    assert(before.counts(winner));
    let won = before.after(winner);
    assert(won.phase == Phase::Won);
    assert(reports.take(k + 1).drop_last() =~= earlier);
    assert(start.after_all(reports.take(k + 1)) == won);
    assert forall|j: int| k < j <= reports.len() implies start.after_all(#[trigger] reports.take(j))
        == won by {
        let rest = reports.subrange(k + 1, j);
        assert(reports.take(j) =~= reports.take(k + 1) + rest);
        lemma_after_all_split(start, reports.take(k + 1), rest);
        lemma_settled_stays(won, rest);
    }
    assert(reports.take(reports.len() as int) =~= reports);
}

/// When every target has reported and no reply decoded, the race is lost.
pub proof fn lemma_all_failures_exhaust(targets: nat, reports: Seq<Report>)
    requires
        forall|j: int| 0 <= j < reports.len() ==> (#[trigger] reports[j]).response() is None,
        forall|t: int| 0 <= t < targets ==> #[trigger] has_reported(reports, t),
    ensures
        RaceView::start(targets).after_all(reports).phase == Phase::Exhausted,
{
    lemma_no_winner(targets, reports);
    let race = RaceView::start(targets).after_all(reports);
    assert forall|t: int| 0 <= t < race.heard.len() implies race.heard[t] by {
        assert(has_reported(reports, t));
    }
}

} // verus!
