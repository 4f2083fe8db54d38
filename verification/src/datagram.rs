use crate::error::OnvifError;
use vstd::prelude::*;

verus! {

/// How often a datagram is sent and how long each reply is waited for.
#[derive(Clone, Copy, Debug, PartialEq, Eq, Structural)]
pub struct RetryPolicy {
    pub attempts: u8,
    pub per_attempt_timeout_ms: u64,
}

impl RetryPolicy {
    /// Three attempts of 3000 ms each.
    pub fn standard() -> (out: RetryPolicy)
        ensures
            out.attempts == 3,
            out.per_attempt_timeout_ms == 3000,
    {
        RetryPolicy { attempts: 3, per_attempt_timeout_ms: 3000 }
    }

    /// The longest time an exchange can wait in all.
    pub open spec fn spec_total_wait_ms(&self) -> nat {
        (self.attempts as nat) * (self.per_attempt_timeout_ms as nat)
    }

    /// The longest time an exchange can wait in all, in milliseconds.
    pub fn total_wait_ms(&self) -> (out: u128)
        ensures
            out == self.spec_total_wait_ms(),
    {
        let a: u128 = self.attempts as u128;
        let t: u128 = self.per_attempt_timeout_ms as u128;
        assert(a * t <= 0xff * 0xffff_ffff_ffff_ffff) by (nonlinear_arith)
            requires
                a <= 0xff,
                t <= 0xffff_ffff_ffff_ffff,
        ;
        a * t
    }
}

/// What one attempt brought: a datagram, or nothing before the deadline.
#[derive(Debug)]
pub enum AttemptOutcome {
    Reply(Vec<u8>),
    TimedOut,
}

/// What the caller has to do next.
#[derive(Debug)]
pub enum DatagramAction {
    /// Set the peer, send the payload as one datagram and wait for a reply
    /// for at most `timeout_ms`.
    Send { attempt: u8, timeout_ms: u64 },
    /// The exchange is over: these bytes are the reply.
    Deliver(Vec<u8>),
    /// The exchange is over without a reply.
    Fail(OnvifError),
    /// The exchange was over before; there is nothing to do.
    Idle,
}

/// An action as a plain value.
pub enum ActionModel {
    Send { attempt: nat, timeout_ms: nat },
    Deliver(Seq<u8>),
    Fail(OnvifError),
    Idle,
}

impl View for DatagramAction {
    type V = ActionModel;

    open spec fn view(&self) -> ActionModel {
        match *self {
            DatagramAction::Send { attempt, timeout_ms } => ActionModel::Send {
                attempt: attempt as nat,
                timeout_ms: timeout_ms as nat,
            },
            DatagramAction::Deliver(bytes) => ActionModel::Deliver(bytes@),
            DatagramAction::Fail(e) => ActionModel::Fail(e),
            DatagramAction::Idle => ActionModel::Idle,
        }
    }
}

/// The data of an outcome: a datagram counts as a reply only if it holds at
/// least one byte.
impl View for AttemptOutcome {
    type V = Option<Seq<u8>>;

    open spec fn view(&self) -> Option<Seq<u8>> {
        match *self {
            AttemptOutcome::Reply(bytes) => if bytes@.len() > 0 {
                Some(bytes@)
            } else {
                None
            },
            AttemptOutcome::TimedOut => None,
        }
    }
}

/// One exchange over the datagram transport: how many datagrams went out, and
/// whether it is over.
#[derive(Debug)]
pub struct DatagramExchange {
    policy: RetryPolicy,
    sent: u8,
    done: bool,
}

/// An exchange as plain values.
pub struct ExchangeModel {
    pub attempts: nat,
    pub timeout_ms: nat,
    pub sent: nat,
    pub done: bool,
}

impl ExchangeModel {
    /// No more datagrams went out than the policy allows.
    pub open spec fn wf(self) -> bool {
        self.sent <= self.attempts
    }
}

/// The exchange before anything was sent, and its first action.
pub open spec fn start_of(policy: RetryPolicy) -> (ExchangeModel, ActionModel) {
    let fresh = ExchangeModel {
        attempts: policy.attempts as nat,
        timeout_ms: policy.per_attempt_timeout_ms as nat,
        sent: 0,
        done: false,
    };
    advance(fresh, None)
}

/// What follows an attempt that brought `reply`: the first reply ends the
/// exchange; without one the datagram goes out again while the policy allows,
/// and the exchange fails after that.
pub open spec fn advance(m: ExchangeModel, reply: Option<Seq<u8>>) -> (ExchangeModel, ActionModel) {
    if m.done {
        (m, ActionModel::Idle)
    } else if reply is Some {
        (ExchangeModel { done: true, ..m }, ActionModel::Deliver(reply->0))
    } else if m.sent < m.attempts {
        (
            ExchangeModel { sent: m.sent + 1, ..m },
            ActionModel::Send { attempt: m.sent + 1, timeout_ms: m.timeout_ms },
        )
    } else {
        (ExchangeModel { done: true, ..m }, ActionModel::Fail(OnvifError::AllAttemptsExhausted))
    }
}

impl View for DatagramExchange {
    type V = ExchangeModel;

    closed spec fn view(&self) -> ExchangeModel {
        ExchangeModel {
            attempts: self.policy.attempts as nat,
            timeout_ms: self.policy.per_attempt_timeout_ms as nat,
            sent: self.sent as nat,
            done: self.done,
        }
    }
}

impl DatagramExchange {
    /// Starts an exchange and says what to do first: send the first datagram,
    /// or fail at once under a policy without attempts.
    pub fn begin(policy: RetryPolicy) -> (out: (DatagramExchange, DatagramAction))
        ensures
            (out.0@, out.1@) == start_of(policy),
            out.0@.wf(),
    {
        if policy.attempts == 0 {
            (
                DatagramExchange { policy, sent: 0, done: true },
                DatagramAction::Fail(OnvifError::AllAttemptsExhausted),
            )
        } else {
            (
                DatagramExchange { policy, sent: 1, done: false },
                DatagramAction::Send { attempt: 1, timeout_ms: policy.per_attempt_timeout_ms },
            )
        }
    }

    /// Takes the outcome of the attempt that was asked for last and says what
    /// to do next.
    pub fn on_outcome(&mut self, outcome: AttemptOutcome) -> (action: DatagramAction)
        ensures
            (final(self)@, action@) == advance(old(self)@, outcome@),
            old(self)@.wf() ==> final(self)@.wf(),
    {
        if self.done {
            return DatagramAction::Idle;
        }
        match outcome {
            AttemptOutcome::Reply(bytes) => {
                if bytes.len() > 0 {
                    self.done = true;
                    return DatagramAction::Deliver(bytes);
                }
            },
            AttemptOutcome::TimedOut => {},
        }
        if self.sent < self.policy.attempts {
            self.sent = self.sent + 1;
            DatagramAction::Send {
                attempt: self.sent,
                timeout_ms: self.policy.per_attempt_timeout_ms,
            }
        } else {
            self.done = true;
            DatagramAction::Fail(OnvifError::AllAttemptsExhausted)
        }
    }

    /// The number of datagrams that were asked for so far.
    pub fn attempts_made(&self) -> (out: u8)
        ensures
            out == self@.sent,
    {
        self.sent
    }

    /// Whether the exchange is over.
    pub fn is_done(&self) -> (out: bool)
        ensures
            out == self@.done,
    {
        self.done
    }
}

/// The exchange after a run of outcomes.
pub open spec fn state_after(m: ExchangeModel, replies: Seq<Option<Seq<u8>>>) -> ExchangeModel
    decreases replies.len(),
{
    if replies.len() == 0 {
        m
    } else {
        advance(state_after(m, replies.drop_last()), replies.last()).0
    }
}

/// The action that the last outcome of a run leads to.
pub open spec fn last_action(m: ExchangeModel, replies: Seq<Option<Seq<u8>>>) -> ActionModel
    recommends
        replies.len() > 0,
{
    advance(state_after(m, replies.drop_last()), replies.last()).1
}

/// No outcome of the run is a reply.
pub open spec fn all_silent(replies: Seq<Option<Seq<u8>>>) -> bool {
    forall|i: int| 0 <= i < replies.len() ==> (#[trigger] replies[i]) is None
}

/// The number of datagrams that an exchange asked for, from its start through
/// a run of outcomes.
pub open spec fn sends_issued(policy: RetryPolicy, replies: Seq<Option<Seq<u8>>>) -> nat
    decreases replies.len(),
{
    if replies.len() == 0 {
        if start_of(policy).1 is Send {
            1
        } else {
            0
        }
    } else {
        sends_issued(policy, replies.drop_last()) + if last_action(start_of(policy).0, replies)
            is Send {
            1nat
        } else {
            0nat
        }
    }
}

/// However the attempts turn out, an exchange never asks for more datagrams
/// than its policy allows, and it counts each one that it asks for.
pub proof fn lemma_attempts_bounded(policy: RetryPolicy, replies: Seq<Option<Seq<u8>>>)
    ensures
        state_after(start_of(policy).0, replies).wf(),
        state_after(start_of(policy).0, replies).attempts == policy.attempts,
        state_after(start_of(policy).0, replies).timeout_ms == policy.per_attempt_timeout_ms,
        sends_issued(policy, replies) == state_after(start_of(policy).0, replies).sent,
        sends_issued(policy, replies) <= policy.attempts,
    decreases replies.len(),
{
    if replies.len() > 0 {
        lemma_attempts_bounded(policy, replies.drop_last());
    }
}

/// While no reply comes and attempts are left, each outcome leads to one more
/// datagram: after `n` silent outcomes `n + 1` datagrams went out.
pub proof fn lemma_silence_retries(policy: RetryPolicy, replies: Seq<Option<Seq<u8>>>)
    requires
        all_silent(replies),
        replies.len() < policy.attempts,
    ensures
        state_after(start_of(policy).0, replies).sent == replies.len() + 1,
        !state_after(start_of(policy).0, replies).done,
        replies.len() > 0 ==> last_action(start_of(policy).0, replies) == (ActionModel::Send {
            attempt: replies.len() + 1,
            timeout_ms: policy.per_attempt_timeout_ms as nat,
        }),
    decreases replies.len(),
{
    if replies.len() > 0 {
        let before = replies.drop_last();
        assert forall|i: int| 0 <= i < before.len() implies (#[trigger] before[i]) is None by {
            assert(before[i] == replies[i]);
        }
        assert(replies[replies.len() - 1] is None);
        lemma_silence_retries(policy, before);
        lemma_attempts_bounded(policy, before);
    }
}

/// Where every attempt that the policy allows stays without a reply, the
/// exchange fails with `AllAttemptsExhausted`, after exactly that many
/// datagrams.
pub proof fn lemma_exhausted_without_reply(policy: RetryPolicy, replies: Seq<Option<Seq<u8>>>)
    requires
        all_silent(replies),
        replies.len() == policy.attempts,
        policy.attempts > 0,
    ensures
        last_action(start_of(policy).0, replies) == ActionModel::Fail(
            OnvifError::AllAttemptsExhausted,
        ),
        state_after(start_of(policy).0, replies).done,
        sends_issued(policy, replies) == policy.attempts,
{
    lemma_attempts_bounded(policy, replies);
    let before = replies.drop_last();
    assert forall|i: int| 0 <= i < before.len() implies (#[trigger] before[i]) is None by {
        assert(before[i] == replies[i]);
    }
    assert(replies[replies.len() - 1] is None);
    lemma_silence_retries(policy, before);
    lemma_attempts_bounded(policy, before);
}

/// The first reply ends the exchange: where the attempt number `k + 1` is the
/// first to bring a reply, these bytes are delivered, exactly `k + 1`
/// datagrams went out, and nothing is sent after that, whatever follows.
pub proof fn lemma_first_reply_wins(
    policy: RetryPolicy,
    silent: Seq<Option<Seq<u8>>>,
    reply: Seq<u8>,
    later: Seq<Option<Seq<u8>>>,
)
    requires
        all_silent(silent),
        silent.len() < policy.attempts,
    ensures
        last_action(start_of(policy).0, silent.push(Some(reply))) == ActionModel::Deliver(reply),
        state_after(start_of(policy).0, silent.push(Some(reply)) + later).done,
        sends_issued(policy, silent.push(Some(reply)) + later) == silent.len() + 1,
        later.len() > 0 ==> last_action(start_of(policy).0, silent.push(Some(reply)) + later)
            == ActionModel::Idle,
    decreases later.len(),
{
    let first = silent.push(Some(reply));
    lemma_attempts_bounded(policy, first + later);
    lemma_silence_retries(policy, silent);
    lemma_attempts_bounded(policy, silent);
    assert(first.drop_last() =~= silent);
    if later.len() == 0 {
        assert(first + later =~= first);
    } else {
        lemma_first_reply_wins(policy, silent, reply, later.drop_last());
        assert((first + later).drop_last() =~= first + later.drop_last());
    }
}

/// Where a discovery stands: one datagram went out, and one reply is waited
/// for.
#[derive(Clone, Copy, Debug, PartialEq, Eq, Structural)]
pub enum DiscoveryState {
    AwaitingReply,
    Completed,
}

/// What follows the one wait of a discovery: the first responder's bytes are
/// delivered, or the discovery fails with `TimeoutExceeded`; it is over
/// either way. A datagram without bytes is no reply (see the view of
/// `AttemptOutcome`): where only such a datagram came before the deadline,
/// the discovery fails with `TimeoutExceeded` as if nothing had come.
pub open spec fn discovery_next(state: DiscoveryState, reply: Option<Seq<u8>>) -> (
    DiscoveryState,
    ActionModel,
) {
    match state {
        DiscoveryState::Completed => (DiscoveryState::Completed, ActionModel::Idle),
        DiscoveryState::AwaitingReply => match reply {
            Some(bytes) => (DiscoveryState::Completed, ActionModel::Deliver(bytes)),
            None => (DiscoveryState::Completed, ActionModel::Fail(OnvifError::TimeoutExceeded)),
        },
    }
}

/// Takes the outcome of the wait of a discovery.
pub fn discovery_step(state: DiscoveryState, outcome: AttemptOutcome) -> (out: (
    DiscoveryState,
    DatagramAction,
))
    ensures
        (out.0, out.1@) == discovery_next(state, outcome@),
{
    match state {
        DiscoveryState::Completed => (DiscoveryState::Completed, DatagramAction::Idle),
        DiscoveryState::AwaitingReply => {
            match outcome {
                AttemptOutcome::Reply(bytes) => {
                    if bytes.len() > 0 {
                        (DiscoveryState::Completed, DatagramAction::Deliver(bytes))
                    } else {
                        (
                            DiscoveryState::Completed,
                            DatagramAction::Fail(OnvifError::TimeoutExceeded),
                        )
                    }
                },
                AttemptOutcome::TimedOut => (
                    DiscoveryState::Completed,
                    DatagramAction::Fail(OnvifError::TimeoutExceeded),
                ),
            }
        },
    }
}

} // verus!
