use vstd::prelude::*;

verus! {

/// What the operator picks when asked about the usage terms.
#[derive(Clone, Copy, PartialEq, Eq, Debug)]
pub enum TermsChoice {
    Show,
    Accept,
    Reject,
}

/// What happened since the last action: the answer to a query, a choice, or the end of a
/// remote procedure.
#[derive(Clone, Copy, PartialEq, Eq, Debug)]
pub enum Event {
    Begin,
    AccountUnlocked(bool),
    UnlockDone,
    TermsAccepted(bool),
    Chosen(TermsChoice),
    TermsShown,
    MonitorAnswer(bool),
    TalkbackAnswer(bool),
    TermsAcceptDone,
    ServerReady,
}

#[derive(Clone, Copy, PartialEq, Eq, Debug)]
pub enum NegotiationError {
    /// The operator rejected the usage terms.
    TermsRejected,
    /// An event came that the current step does not wait for.
    UnexpectedEvent,
}

/// What to do next.
#[derive(Clone, Copy, PartialEq, Eq, Debug)]
pub enum Action {
    /// Ask whether the account is unlocked.
    QueryUnlocked,
    /// Say that the account is locked and run the unlock procedure.
    Unlock,
    /// Ask whether the usage terms are accepted.
    QueryTerms,
    /// Ask the operator to show, accept or reject the terms.
    AskTermsChoice,
    /// Fetch and print the terms text.
    ShowTerms,
    /// Ask whether to enable usage monitoring.
    AskMonitor,
    /// Ask whether to enable diagnostic reporting.
    AskTalkback,
    /// Accept the terms with the two answers.
    AcceptTerms { monitor: bool, talkback: bool },
    /// Subscribe to the readiness topic and wait for one event.
    WaitForServer,
    /// Set the prompt bypass to `bypass` and hand out the connection.
    Finish { bypass: bool },
    /// Abort the invocation.
    Fail(NegotiationError),
}

#[derive(Clone, Copy, PartialEq, Eq, Debug)]
pub enum Phase {
    Start,
    CheckingUnlock,
    Unlocking,
    CheckingTerms,
    Choosing,
    Showing,
    AskingMonitor,
    AskingTalkback,
    Accepting,
    Waiting,
    Done,
    Failed,
}

/// The state of one negotiation.
#[derive(Clone, Copy, PartialEq, Eq, Debug)]
pub struct Negotiator {
    pub phase: Phase,
    /// An unlock or an acceptance happened: the server must be waited for.
    pub wait_for_start: bool,
    /// The answer given for usage monitoring.
    pub monitor: bool,
    /// The session's "accept any prompt" setting.
    pub accept_any_prompt: bool,
}

pub open spec fn at(n: Negotiator, phase: Phase) -> Negotiator {
    Negotiator { phase, ..n }
}

/// The transition table of the negotiation.
pub open spec fn next(n: Negotiator, e: Event) -> (Negotiator, Action) {
    match (n.phase, e) {
        (Phase::Start, Event::Begin) => (at(n, Phase::CheckingUnlock), Action::QueryUnlocked),
        (Phase::CheckingUnlock, Event::AccountUnlocked(true)) => (at(n, Phase::CheckingTerms), Action::QueryTerms),
        (Phase::CheckingUnlock, Event::AccountUnlocked(false)) => (at(n, Phase::Unlocking), Action::Unlock),
        (Phase::Unlocking, Event::UnlockDone) => (
            Negotiator { phase: Phase::CheckingTerms, wait_for_start: true, ..n },
            Action::QueryTerms,
        ),
        (Phase::CheckingTerms, Event::TermsAccepted(true)) => if n.wait_for_start {
            (at(n, Phase::Waiting), Action::WaitForServer)
        } else {
            (at(n, Phase::Done), Action::Finish { bypass: n.accept_any_prompt })
        },
        (Phase::CheckingTerms, Event::TermsAccepted(false)) => (at(n, Phase::Choosing), Action::AskTermsChoice),
        (Phase::Choosing, Event::Chosen(TermsChoice::Show)) => (at(n, Phase::Showing), Action::ShowTerms),
        (Phase::Showing, Event::TermsShown) => (at(n, Phase::Choosing), Action::AskTermsChoice),
        (Phase::Choosing, Event::Chosen(TermsChoice::Reject)) => (
            at(n, Phase::Failed),
            Action::Fail(NegotiationError::TermsRejected),
        ),
        (Phase::Choosing, Event::Chosen(TermsChoice::Accept)) => (at(n, Phase::AskingMonitor), Action::AskMonitor),
        (Phase::AskingMonitor, Event::MonitorAnswer(m)) => (
            Negotiator { phase: Phase::AskingTalkback, monitor: m, ..n },
            Action::AskTalkback,
        ),
        (Phase::AskingTalkback, Event::TalkbackAnswer(t)) => (
            Negotiator { phase: Phase::Accepting, wait_for_start: true, ..n },
            Action::AcceptTerms { monitor: n.monitor, talkback: t },
        ),
        (Phase::Accepting, Event::TermsAcceptDone) => (at(n, Phase::Waiting), Action::WaitForServer),
        (Phase::Waiting, Event::ServerReady) => (
            at(n, Phase::Done),
            Action::Finish { bypass: n.accept_any_prompt },
        ),
        _ => (at(n, Phase::Failed), Action::Fail(NegotiationError::UnexpectedEvent)),
    }
}

/// The state reached and the actions taken over a sequence of events.
pub open spec fn run(n: Negotiator, events: Seq<Event>) -> (Negotiator, Seq<Action>)
    decreases events.len(),
{
    if events.len() == 0 {
        (n, Seq::empty())
    } else {
        let (n1, a) = next(n, events[0]);
        let (m, rest) = run(n1, events.drop_first());
        (m, seq![a] + rest)
    }
}

impl Negotiator {
    pub open spec fn fresh(accept_any_prompt: bool) -> Negotiator {
        Negotiator { phase: Phase::Start, wait_for_start: false, monitor: false, accept_any_prompt }
    }

    /// A negotiation that has not begun, for a session with this "accept any prompt" setting.
    pub fn new(accept_any_prompt: bool) -> (r: Negotiator)
        ensures
            r == Negotiator::fresh(accept_any_prompt),
    {
        Negotiator { phase: Phase::Start, wait_for_start: false, monitor: false, accept_any_prompt }
    }

    /// Takes one event and says what to do next.
    pub fn step(&mut self, e: Event) -> (r: Action)
        ensures
            (*final(self), r) == next(*old(self), e),
    {
        let n = *self;
        let (m, a) = match (n.phase, e) {
            (Phase::Start, Event::Begin) => (Negotiator { phase: Phase::CheckingUnlock, ..n }, Action::QueryUnlocked),
            (Phase::CheckingUnlock, Event::AccountUnlocked(true)) => (Negotiator { phase: Phase::CheckingTerms, ..n }, Action::QueryTerms),
            (Phase::CheckingUnlock, Event::AccountUnlocked(false)) => (Negotiator { phase: Phase::Unlocking, ..n }, Action::Unlock),
            (Phase::Unlocking, Event::UnlockDone) => (
                Negotiator { phase: Phase::CheckingTerms, wait_for_start: true, ..n },
                Action::QueryTerms,
            ),
            (Phase::CheckingTerms, Event::TermsAccepted(true)) => if n.wait_for_start {
                (Negotiator { phase: Phase::Waiting, ..n }, Action::WaitForServer)
            } else {
                (Negotiator { phase: Phase::Done, ..n }, Action::Finish { bypass: n.accept_any_prompt })
            },
            (Phase::CheckingTerms, Event::TermsAccepted(false)) => (Negotiator { phase: Phase::Choosing, ..n }, Action::AskTermsChoice),
            (Phase::Choosing, Event::Chosen(TermsChoice::Show)) => (Negotiator { phase: Phase::Showing, ..n }, Action::ShowTerms),
            (Phase::Showing, Event::TermsShown) => (Negotiator { phase: Phase::Choosing, ..n }, Action::AskTermsChoice),
            (Phase::Choosing, Event::Chosen(TermsChoice::Reject)) => (
                Negotiator { phase: Phase::Failed, ..n },
                Action::Fail(NegotiationError::TermsRejected),
            ),
            (Phase::Choosing, Event::Chosen(TermsChoice::Accept)) => (Negotiator { phase: Phase::AskingMonitor, ..n }, Action::AskMonitor),
            (Phase::AskingMonitor, Event::MonitorAnswer(m)) => (
                Negotiator { phase: Phase::AskingTalkback, monitor: m, ..n },
                Action::AskTalkback,
            ),
            (Phase::AskingTalkback, Event::TalkbackAnswer(t)) => (
                Negotiator { phase: Phase::Accepting, wait_for_start: true, ..n },
                Action::AcceptTerms { monitor: n.monitor, talkback: t },
            ),
            (Phase::Accepting, Event::TermsAcceptDone) => (Negotiator { phase: Phase::Waiting, ..n }, Action::WaitForServer),
            (Phase::Waiting, Event::ServerReady) => (
                Negotiator { phase: Phase::Done, ..n },
                Action::Finish { bypass: n.accept_any_prompt },
            ),
            _ => (Negotiator { phase: Phase::Failed, ..n }, Action::Fail(NegotiationError::UnexpectedEvent)),
        };
        *self = m;
        a
    }
}

proof fn lemma_run_single(n: Negotiator, e: Event)
    ensures
        run(n, seq![e]) == (next(n, e).0, seq![next(n, e).1]),
{
    reveal_with_fuel(run, 2);
    assert(seq![e].drop_first() =~= Seq::<Event>::empty());
    assert(seq![next(n, e).1] + Seq::<Action>::empty() =~= seq![next(n, e).1]);
}

proof fn lemma_run_append(n: Negotiator, a: Seq<Event>, b: Seq<Event>)
    ensures
        run(n, a + b) == (run(run(n, a).0, b).0, run(n, a).1 + run(run(n, a).0, b).1),
    decreases a.len(),
{
    if a.len() == 0 {
        assert(a + b =~= b);
        assert(Seq::<Action>::empty() + run(n, b).1 =~= run(n, b).1);
    } else {
        let (n1, x) = next(n, a[0]);
        assert((a + b).drop_first() =~= a.drop_first() + b);
        lemma_run_append(n1, a.drop_first(), b);
        let r1 = run(n1, a.drop_first());
        let r2 = run(r1.0, b);
        assert(seq![x] + (r1.1 + r2.1) =~= (seq![x] + r1.1) + r2.1);
    }
}

/// The events up to the question on the terms: the account is found unlocked, or found
/// locked and then unlocked.
pub open spec fn opening(unlocked: bool) -> Seq<Event> {
    if unlocked {
        seq![Event::Begin, Event::AccountUnlocked(true)]
    } else {
        seq![Event::Begin, Event::AccountUnlocked(false), Event::UnlockDone]
    }
}

/// `k` rounds of asking to see the terms and seeing them.
pub open spec fn show_rounds(k: nat) -> Seq<Event>
    decreases k,
{
    if k == 0 {
        Seq::empty()
    } else {
        show_rounds((k - 1) as nat) + seq![Event::Chosen(TermsChoice::Show), Event::TermsShown]
    }
}

/// An action that neither accepts the terms nor waits for the server.
pub open spec fn commits_nothing(a: Action) -> bool {
    !(a is AcceptTerms) && !(a is WaitForServer)
}

proof fn lemma_opening(accept_any_prompt: bool, unlocked: bool)
    ensures
        run(Negotiator::fresh(accept_any_prompt), opening(unlocked)).0 == (Negotiator {
            phase: Phase::CheckingTerms,
            wait_for_start: !unlocked,
            monitor: false,
            accept_any_prompt,
        }),
        run(Negotiator::fresh(accept_any_prompt), opening(unlocked)).1 == (if unlocked {
            seq![Action::QueryUnlocked, Action::QueryTerms]
        } else {
            seq![Action::QueryUnlocked, Action::Unlock, Action::QueryTerms]
        }),
{
    let n = Negotiator::fresh(accept_any_prompt);
    let (n1, _) = next(n, Event::Begin);
    let (n2, _) = next(n1, Event::AccountUnlocked(unlocked));
    lemma_run_single(n, Event::Begin);
    lemma_run_single(n1, Event::AccountUnlocked(unlocked));
    if unlocked {
        assert(opening(unlocked) =~= seq![Event::Begin] + seq![Event::AccountUnlocked(true)]);
        lemma_run_append(n, seq![Event::Begin], seq![Event::AccountUnlocked(true)]);
        assert(seq![Action::QueryUnlocked] + seq![Action::QueryTerms] =~= seq![Action::QueryUnlocked, Action::QueryTerms]);
    } else {
        let two = seq![Event::Begin] + seq![Event::AccountUnlocked(false)];
        assert(opening(unlocked) =~= two + seq![Event::UnlockDone]);
        lemma_run_append(n, seq![Event::Begin], seq![Event::AccountUnlocked(false)]);
        lemma_run_append(n, two, seq![Event::UnlockDone]);
        lemma_run_single(n2, Event::UnlockDone);
        assert(seq![Action::QueryUnlocked] + seq![Action::Unlock] + seq![Action::QueryTerms]
            =~= seq![Action::QueryUnlocked, Action::Unlock, Action::QueryTerms]);
    }
}

proof fn lemma_show_rounds(n: Negotiator, k: nat)
    requires
        n.phase == Phase::Choosing,
    ensures
        run(n, show_rounds(k)).0 == n,
        forall|i: int| 0 <= i < run(n, show_rounds(k)).1.len() ==> commits_nothing(#[trigger] run(n, show_rounds(k)).1[i]),
    decreases k,
{
    if k > 0 {
        let prev = show_rounds((k - 1) as nat);
        lemma_show_rounds(n, (k - 1) as nat);
        let round = seq![Event::Chosen(TermsChoice::Show)] + seq![Event::TermsShown];
        assert(seq![Event::Chosen(TermsChoice::Show), Event::TermsShown] =~= round);
        lemma_run_append(n, prev, round);
        let shown = at(n, Phase::Showing);
        lemma_run_single(n, Event::Chosen(TermsChoice::Show));
        lemma_run_single(shown, Event::TermsShown);
        lemma_run_append(n, seq![Event::Chosen(TermsChoice::Show)], seq![Event::TermsShown]);
        assert(at(shown, Phase::Choosing) == n);
        let acts = run(n, show_rounds(k)).1;
        let before = run(n, prev).1;
        assert(acts == before + seq![Action::ShowTerms] + seq![Action::AskTermsChoice]);
        assert forall|i: int| 0 <= i < acts.len() implies commits_nothing(#[trigger] acts[i]) by {
            if i < before.len() {
                assert(acts[i] == before[i]);
            }
        }
    }
}

/// Up to and including the choice prompt, whatever the account's state and however often
/// the terms are shown: the negotiation waits for a choice, in the state it had after the
/// question on the terms, and nothing has been accepted or waited for.
proof fn lemma_until_choice(accept_any_prompt: bool, unlocked: bool, shows: nat)
    ensures
        ({
            let r = run(
                Negotiator::fresh(accept_any_prompt),
                opening(unlocked) + seq![Event::TermsAccepted(false)] + show_rounds(shows),
            );
            &&& r.0 == (Negotiator {
                phase: Phase::Choosing,
                wait_for_start: !unlocked,
                monitor: false,
                accept_any_prompt,
            })
            &&& forall|i: int| 0 <= i < r.1.len() ==> commits_nothing(#[trigger] r.1[i])
        }),
{
    let n = Negotiator::fresh(accept_any_prompt);
    lemma_opening(accept_any_prompt, unlocked);
    let o = run(n, opening(unlocked));
    lemma_run_append(n, opening(unlocked), seq![Event::TermsAccepted(false)]);
    lemma_run_single(o.0, Event::TermsAccepted(false));
    let pre = opening(unlocked) + seq![Event::TermsAccepted(false)];
    let c = run(n, pre);
    lemma_run_append(n, pre, show_rounds(shows));
    lemma_show_rounds(c.0, shows);
    let all = run(n, pre + show_rounds(shows)).1;
    let rounds = run(c.0, show_rounds(shows)).1;
    assert forall|i: int| 0 <= i < all.len() implies commits_nothing(#[trigger] all[i]) by {
        if i >= c.1.len() {
            assert(all[i] == rounds[i - c.1.len()]);
        } else {
            assert(all[i] == c.1[i]);
            if i >= o.1.len() {
                assert(c.1[i] == Action::AskTermsChoice);
            } else {
                assert(c.1[i] == o.1[i]);
            }
        }
    }
}

/// An unlocked account whose terms are accepted: the negotiation asks the two questions
/// and finishes, with no prompt and no wait for the server.
pub proof fn lemma_ready_account_goes_straight_through(accept_any_prompt: bool)
    ensures
        run(Negotiator::fresh(accept_any_prompt), opening(true) + seq![Event::TermsAccepted(true)])
            == (Negotiator {
                phase: Phase::Done,
                wait_for_start: false,
                monitor: false,
                accept_any_prompt,
            }, seq![
                Action::QueryUnlocked,
                Action::QueryTerms,
                Action::Finish { bypass: accept_any_prompt },
            ]),
{
    let n = Negotiator::fresh(accept_any_prompt);
    lemma_opening(accept_any_prompt, true);
    lemma_run_append(n, opening(true), seq![Event::TermsAccepted(true)]);
    lemma_run_single(run(n, opening(true)).0, Event::TermsAccepted(true));
    assert(seq![Action::QueryUnlocked, Action::QueryTerms] + seq![Action::Finish { bypass: accept_any_prompt }]
        =~= seq![Action::QueryUnlocked, Action::QueryTerms, Action::Finish { bypass: accept_any_prompt }]);
}

/// Terms not accepted and then rejected, after any number of showings: the negotiation
/// fails with the rejection, and the terms are never accepted.
pub proof fn lemma_rejected_terms_fail(accept_any_prompt: bool, unlocked: bool, shows: nat)
    ensures
        ({
            let r = run(
                Negotiator::fresh(accept_any_prompt),
                opening(unlocked) + seq![Event::TermsAccepted(false)] + show_rounds(shows)
                    + seq![Event::Chosen(TermsChoice::Reject)],
            );
            &&& r.0.phase == Phase::Failed
            &&& r.1.len() > 0
            &&& r.1.last() == Action::Fail(NegotiationError::TermsRejected)
            &&& forall|i: int| 0 <= i < r.1.len() ==> !(#[trigger] r.1[i] is AcceptTerms)
        }),
{
    let n = Negotiator::fresh(accept_any_prompt);
    let pre = opening(unlocked) + seq![Event::TermsAccepted(false)] + show_rounds(shows);
    lemma_until_choice(accept_any_prompt, unlocked, shows);
    let c = run(n, pre);
    lemma_run_append(n, pre, seq![Event::Chosen(TermsChoice::Reject)]);
    lemma_run_single(c.0, Event::Chosen(TermsChoice::Reject));
    let acts = run(n, pre + seq![Event::Chosen(TermsChoice::Reject)]).1;
    assert forall|i: int| 0 <= i < acts.len() implies !(#[trigger] acts[i] is AcceptTerms) by {
        if i < c.1.len() {
            assert(acts[i] == c.1[i]);
            assert(commits_nothing(c.1[i]));
        }
    }
}

/// Terms not accepted and then accepted, after any number of showings, with answers `m`
/// and `t` to the two questions: the run ends with exactly one acceptance carrying those
/// answers, then exactly one wait for the server, then the finish.
pub proof fn lemma_accepted_terms_commit_once(
    accept_any_prompt: bool,
    unlocked: bool,
    shows: nat,
    m: bool,
    t: bool,
)
    ensures
        ({
            let r = run(
                Negotiator::fresh(accept_any_prompt),
                opening(unlocked) + seq![Event::TermsAccepted(false)] + show_rounds(shows) + seq![
                    Event::Chosen(TermsChoice::Accept),
                    Event::MonitorAnswer(m),
                    Event::TalkbackAnswer(t),
                    Event::TermsAcceptDone,
                    Event::ServerReady,
                ],
            );
            let k = r.1.len() - 5;
            &&& r.0.phase == Phase::Done
            &&& k >= 0
            &&& r.1.subrange(k, r.1.len() as int) == seq![
                Action::AskMonitor,
                Action::AskTalkback,
                Action::AcceptTerms { monitor: m, talkback: t },
                Action::WaitForServer,
                Action::Finish { bypass: accept_any_prompt },
            ]
            &&& forall|i: int| 0 <= i < k ==> commits_nothing(#[trigger] r.1[i])
        }),
{
    let n = Negotiator::fresh(accept_any_prompt);
    let pre = opening(unlocked) + seq![Event::TermsAccepted(false)] + show_rounds(shows);
    lemma_until_choice(accept_any_prompt, unlocked, shows);
    let c = run(n, pre);
    let e1 = Event::Chosen(TermsChoice::Accept);
    let e2 = Event::MonitorAnswer(m);
    let e3 = Event::TalkbackAnswer(t);
    let e4 = Event::TermsAcceptDone;
    let e5 = Event::ServerReady;
    let s1 = c.0;
    let s2 = next(s1, e1).0;
    let s3 = next(s2, e2).0;
    let s4 = next(s3, e3).0;
    let s5 = next(s4, e4).0;
    lemma_run_single(s1, e1);
    lemma_run_single(s2, e2);
    lemma_run_single(s3, e3);
    lemma_run_single(s4, e4);
    lemma_run_single(s5, e5);
    lemma_run_append(s4, seq![e4], seq![e5]);
    lemma_run_append(s3, seq![e3], seq![e4] + seq![e5]);
    lemma_run_append(s2, seq![e2], seq![e3] + (seq![e4] + seq![e5]));
    lemma_run_append(s1, seq![e1], seq![e2] + (seq![e3] + (seq![e4] + seq![e5])));
    let tail = seq![e1] + (seq![e2] + (seq![e3] + (seq![e4] + seq![e5])));
    assert(tail =~= seq![e1, e2, e3, e4, e5]);
    lemma_run_append(n, pre, tail);
    let finish = seq![
        Action::AskMonitor,
        Action::AskTalkback,
        Action::AcceptTerms { monitor: m, talkback: t },
        Action::WaitForServer,
        Action::Finish { bypass: accept_any_prompt },
    ];
    let tail_acts = run(s1, tail).1;
    assert(tail_acts =~= finish);
    let acts = run(n, pre + tail).1;
    assert(acts == c.1 + finish);
    assert(acts.subrange(c.1.len() as int, acts.len() as int) =~= finish);
    assert forall|i: int| 0 <= i < c.1.len() implies commits_nothing(#[trigger] acts[i]) by {
        assert(acts[i] == c.1[i]);
    }
}

} // verus!
