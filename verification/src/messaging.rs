//! Messages between fighters: a mailbox per registered fighter, delivery
//! that files what cannot be delivered as a dead letter, broadcast and
//! multicast, and requests that wait for a response.
//!
//! Mailboxes are bounded tokio channels; waiting on them (and on a
//! response, with its timeout) happens outside.
use vstd::prelude::*;

use tokio::sync::{mpsc, oneshot};

use crate::duration::Duration;
use crate::ids::{new_uuid, uuid_string, uuid_text, FighterId};
use crate::table::lemma_filter_take_step;
use crate::schedule::now_ms;
use crate::text::{append_chars, chars_of, decimal, put, put_u64, string_from_chars};

verus! {

#[verifier::external_type_specification]
#[verifier::external_body]
#[verifier::reject_recursive_types(T)]
pub struct ExMpscSender<T>(mpsc::Sender<T>);

#[verifier::external_type_specification]
#[verifier::external_body]
#[verifier::reject_recursive_types(T)]
pub struct ExMpscReceiver<T>(mpsc::Receiver<T>);

#[verifier::external_type_specification]
#[verifier::external_body]
#[verifier::reject_recursive_types(T)]
pub struct ExOneshotSender<T>(oneshot::Sender<T>);

#[verifier::external_type_specification]
#[verifier::external_body]
#[verifier::reject_recursive_types(T)]
pub struct ExOneshotReceiver<T>(oneshot::Receiver<T>);

#[verifier::external_type_specification]
#[verifier::external_body]
pub struct ExOneshotRecvError(oneshot::error::RecvError);

/// How many messages a mailbox holds.
pub const MAILBOX_CAPACITY: usize = 256;

/// How many dead letters are kept; beyond that the oldest go.
pub const MAX_DEAD_LETTERS: usize = 1000;

/// A new mailbox: `tokio::sync::mpsc::channel` with room for
/// `MAILBOX_CAPACITY` messages. Nothing is stated of the channel.
#[verifier::external_body]
fn mailbox_channel<T>() -> (r: (mpsc::Sender<T>, mpsc::Receiver<T>)) {
    mpsc::channel(MAILBOX_CAPACITY)
}

/// How an attempt to put a message into a mailbox went.
pub enum SendFailure<T> {
    /// The mailbox has no room; the message is handed back.
    Full(T),
    /// The mailbox's receiver is gone; the message is handed back.
    Closed(T),
}

/// `tokio::sync::mpsc::Sender::try_send`. Whether it succeeds depends on
/// the receiving side; when it fails, the message comes back unchanged, as
/// the tokio source shows.
#[verifier::external_body]
fn try_send<T>(tx: &mpsc::Sender<T>, m: T) -> (r: Result<(), SendFailure<T>>)
    ensures
        match r {
            Ok(()) => true,
            Err(SendFailure::Full(back)) => back == m,
            Err(SendFailure::Closed(back)) => back == m,
        },
{
    match tx.try_send(m) {
        Ok(()) => Ok(()),
        Err(mpsc::error::TrySendError::Full(back)) => Err(SendFailure::Full(back)),
        Err(mpsc::error::TrySendError::Closed(back)) => Err(SendFailure::Closed(back)),
    }
}

/// A new one-shot reply channel: `tokio::sync::oneshot::channel`.
#[verifier::external_body]
fn reply_channel<T>() -> (r: (oneshot::Sender<T>, oneshot::Receiver<T>)) {
    oneshot::channel()
}

/// `tokio::sync::oneshot::Sender::send`. It fails when the receiver is
/// gone, and then hands the value back unchanged.
#[verifier::external_body]
fn send_reply<T>(tx: oneshot::Sender<T>, m: T) -> (r: Result<(), T>)
    ensures
        match r {
            Ok(()) => true,
            Err(back) => back == m,
        },
{
    tx.send(m)
}

// ---------------------------------------------------------------------------
// Messages
// ---------------------------------------------------------------------------

/// How urgent a message is.
#[derive(Debug, Clone, Copy, PartialEq, Eq, Structural)]
pub enum MessagePriority {
    /// Whenever.
    Low,
    /// The default.
    Normal,
    /// Soon.
    High,
    /// At once.
    Critical,
}

/// How a message was sent.
#[derive(Debug, Clone)]
pub enum MessageChannel {
    /// To one fighter.
    Direct,
    /// To every other fighter.
    Broadcast,
    /// To the listed fighters.
    Multicast(Vec<FighterId>),
    /// As a request awaiting a response within the given milliseconds.
    Request { timeout_ms: u64 },
}

/// A message between fighters, with content of type `C`.
#[derive(Debug, Clone)]
pub struct AgentMessage<C> {
    /// Its id.
    pub id: u128,
    /// The sender.
    pub from: FighterId,
    /// The recipient.
    pub to: FighterId,
    /// How it was sent.
    pub channel: MessageChannel,
    /// What it says.
    pub content: C,
    /// How urgent it is.
    pub priority: MessagePriority,
    /// When it was sent (milliseconds since the Unix epoch).
    pub timestamp: i64,
    /// Whether it reached its recipient.
    pub delivered: bool,
}

/// Why a message operation failed.
#[derive(Debug, Clone, Copy, PartialEq, Eq, Structural)]
pub enum RouterError {
    /// The recipient has no mailbox.
    NoMailbox(FighterId),
    /// The recipient's mailbox is full.
    MailboxFull(FighterId),
    /// The recipient's mailbox is closed.
    MailboxClosed(FighterId),
    /// No request with this id awaits a response.
    NoPendingRequest(u128),
    /// The requester stopped waiting.
    RequesterGone,
    /// No response came within the given milliseconds.
    TimedOut(u64),
    /// The response channel closed before a response came.
    ChannelClosed,
}

/// The text of an error.
pub open spec fn router_error_text(e: RouterError) -> Seq<char> {
    match e {
        RouterError::NoMailbox(f) => "no mailbox registered for fighter "@ + uuid_text(f.0),
        RouterError::MailboxFull(f) => "mailbox full for fighter "@ + uuid_text(f.0),
        RouterError::MailboxClosed(f) => "mailbox closed for fighter "@ + uuid_text(f.0),
        RouterError::NoPendingRequest(id) => "no pending request for message "@ + uuid_text(id),
        RouterError::RequesterGone => "failed to send response: requester dropped"@,
        RouterError::TimedOut(ms) => "request timed out after "@ + decimal(ms as nat) + "ms"@,
        RouterError::ChannelClosed => "request channel closed before response"@,
    }
}

impl RouterError {
    /// The error as text (`Display`).
    pub fn to_string(&self) -> (s: String)
        ensures
            s@ == router_error_text(*self),
    {
        let mut out: Vec<char> = Vec::new();
        match *self {
            RouterError::NoMailbox(f) => {
                put(&mut out, "no mailbox registered for fighter ");
                put(&mut out, uuid_string(f.0).as_str());
            },
            RouterError::MailboxFull(f) => {
                put(&mut out, "mailbox full for fighter ");
                put(&mut out, uuid_string(f.0).as_str());
            },
            RouterError::MailboxClosed(f) => {
                put(&mut out, "mailbox closed for fighter ");
                put(&mut out, uuid_string(f.0).as_str());
            },
            RouterError::NoPendingRequest(id) => {
                put(&mut out, "no pending request for message ");
                put(&mut out, uuid_string(id).as_str());
            },
            RouterError::RequesterGone => {
                put(&mut out, "failed to send response: requester dropped");
            },
            RouterError::TimedOut(ms) => {
                put(&mut out, "request timed out after ");
                put_u64(&mut out, ms);
                put(&mut out, "ms");
            },
            RouterError::ChannelClosed => {
                put(&mut out, "request channel closed before response");
            },
        }
        string_from_chars(out.as_slice())
    }
}

// ---------------------------------------------------------------------------
// Dead letters
// ---------------------------------------------------------------------------

/// The dead letters after `m` is filed: appended, and the oldest dropped
/// when that would exceed `MAX_DEAD_LETTERS`.
pub open spec fn with_dead_letter<M>(q: Seq<M>, m: M) -> Seq<M> {
    if q.len() >= MAX_DEAD_LETTERS {
        q.push(m).drop_first()
    } else {
        q.push(m)
    }
}

/// Undeliverable messages, oldest first, at most `MAX_DEAD_LETTERS`.
pub struct DeadLetterQueue<M> {
    letters: Vec<M>,
}

impl<M> DeadLetterQueue<M> {
    /// The letters, oldest first.
    pub closed spec fn letters(&self) -> Seq<M> {
        self.letters@
    }

    /// No more than `MAX_DEAD_LETTERS`.
    pub open spec fn wf(&self) -> bool {
        self.letters().len() <= MAX_DEAD_LETTERS
    }

    /// No letters.
    pub fn new() -> (q: DeadLetterQueue<M>)
        ensures
            q.wf(),
            q.letters() == Seq::<M>::empty(),
    {
        DeadLetterQueue { letters: Vec::new() }
    }

    /// File `m`, dropping the oldest letter when full.
    pub fn add(&mut self, m: M)
        requires
            old(self).wf(),
        ensures
            final(self).wf(),
            final(self).letters() == with_dead_letter(old(self).letters(), m),
    {
        self.letters.push(m);
        if self.letters.len() > MAX_DEAD_LETTERS {
            let _oldest = self.letters.remove(0);
            assert(self.letters@ =~= old(self).letters@.push(m).drop_first());
        }
    }

    /// Number of letters.
    pub fn len(&self) -> (n: usize)
        ensures
            n == self.letters().len(),
    {
        self.letters.len()
    }

    /// Take out all letters, oldest first.
    pub fn drain(&mut self) -> (r: Vec<M>)
        ensures
            final(self).wf(),
            r@ == old(self).letters(),
            final(self).letters() == Seq::<M>::empty(),
    {
        let mut r: Vec<M> = Vec::new();
        std::mem::swap(&mut r, &mut self.letters);
        r
    }
}

// ---------------------------------------------------------------------------
// The router
// ---------------------------------------------------------------------------

/// Delivers messages with content of type `C` between fighters.
#[verifier::reject_recursive_types(C)]
pub struct MessageRouter<C> {
    mailboxes: Vec<(FighterId, mpsc::Sender<AgentMessage<C>>)>,
    dead_letters: DeadLetterQueue<AgentMessage<C>>,
    pending: Vec<(u128, oneshot::Sender<AgentMessage<C>>)>,
}

/// A message as sent at `timestamp`, not yet delivered.
pub open spec fn fresh_message<C>(
    m: AgentMessage<C>,
    from: FighterId,
    to: FighterId,
    channel: MessageChannel,
    content: C,
    priority: MessagePriority,
) -> bool {
    &&& m.from == from
    &&& m.to == to
    &&& same_channel(m.channel, channel)
    &&& m.content == content
    &&& m.priority == priority
    &&& !m.delivered
    &&& m.id != 0
}

/// Taking position `i` out of a sequence without repeats leaves one without
/// repeats, holding the same elements but `s[i]`.
pub proof fn lemma_remove_unique<A>(s: Seq<A>, i: int)
    requires
        0 <= i < s.len(),
        s.no_duplicates(),
    ensures
        s.remove(i).no_duplicates(),
        s.remove(i).to_set() == s.to_set().remove(s[i]),
{
    let r = s.remove(i);
    assert forall|a: int, b: int| 0 <= a < b < r.len() implies r[a] != r[b] by {
        let a0 = if a < i { a } else { a + 1 };
        let b0 = if b < i { b } else { b + 1 };
        assert(r[a] == s[a0] && r[b] == s[b0]);
    }
    assert forall|x: A| r.to_set().contains(x) <==> s.to_set().remove(s[i]).contains(x) by {
        if r.contains(x) {
            let j = choose|j: int| 0 <= j < r.len() && r[j] == x;
            let j0 = if j < i { j } else { j + 1 };
            assert(s[j0] == x && j0 != i);
        }
        if s.contains(x) && x != s[i] {
            let j0 = choose|j: int| 0 <= j < s.len() && s[j] == x;
            assert(j0 != i);
            let j = if j0 < i { j0 } else { j0 - 1 };
            assert(r[j] == x);
        }
    }
    assert(r.to_set() =~= s.to_set().remove(s[i]));
}

/// The fighters a broadcast from `from` goes to: every registered one but
/// `from`, in registration order.
pub open spec fn broadcast_targets(registered: Seq<FighterId>, from: FighterId) -> Seq<FighterId> {
    registered.filter(other_than(from))
}

/// Holds of every fighter but `from`.
pub open spec fn other_than(from: FighterId) -> spec_fn(FighterId) -> bool {
    |x: FighterId| x != from
}

/// The ids of the successful deliveries among `outs`, in order.
pub open spec fn successes(outs: Seq<Result<u128, RouterError>>) -> Seq<u128>
    decreases outs.len(),
{
    if outs.len() == 0 {
        Seq::empty()
    } else {
        let rest = successes(outs.drop_last());
        match outs.last() {
            Ok(id) => rest.push(id),
            Err(_) => rest,
        }
    }
}

/// `sent` are messages to `targets` in order, each from `from` over
/// `channel` with `priority`, its content a clone of `content`, a fresh id,
/// and not delivered yet.
pub open spec fn sent_to<C: Clone>(
    sent: Seq<AgentMessage<C>>,
    targets: Seq<FighterId>,
    from: FighterId,
    channel: MessageChannel,
    content: C,
    priority: MessagePriority,
) -> bool {
    &&& sent.len() == targets.len()
    &&& forall|i: int|
        0 <= i < sent.len() ==> {
            let m = #[trigger] sent[i];
            &&& m.to == targets[i]
            &&& m.from == from
            &&& same_channel(m.channel, channel)
            &&& cloned(content, m.content)
            &&& m.priority == priority
            &&& !m.delivered
            &&& m.id != 0
        }
}

/// The messages `sent` were delivered one after another with outcomes
/// `outs`, taking the dead letters from `before` through `states` to
/// `after`.
pub open spec fn trace_ok<C>(
    registered: Seq<FighterId>,
    before: Seq<AgentMessage<C>>,
    after: Seq<AgentMessage<C>>,
    sent: Seq<AgentMessage<C>>,
    outs: Seq<Result<u128, RouterError>>,
    states: Seq<Seq<AgentMessage<C>>>,
) -> bool {
    &&& outs.len() == sent.len()
    &&& states.len() == sent.len() + 1
    &&& states[0] == before
    &&& states.last() == after
    &&& forall|i: int|
        0 <= i < sent.len() ==> #[trigger] delivery(registered, states[i], states[i + 1], sent[i], outs[i])
}

/// An owned copy of the ids `v`.
fn copy_ids(v: &Vec<FighterId>) -> (r: Vec<FighterId>)
    ensures
        r@ == v@,
{
    let mut r: Vec<FighterId> = Vec::new();
    let mut i: usize = 0;
    while i < v.len()
        invariant
            i <= v@.len(),
            r@ == v@.take(i as int),
        decreases v@.len() - i,
    {
        r.push(v[i]);
        i = i + 1;
        assert(r@ =~= v@.take(i as int));
    }
    assert(v@.take(v@.len() as int) =~= v@);
    r
}

/// Two channels are the same kind with the same details.
pub open spec fn same_channel(a: MessageChannel, b: MessageChannel) -> bool {
    match (a, b) {
        (MessageChannel::Direct, MessageChannel::Direct) => true,
        (MessageChannel::Broadcast, MessageChannel::Broadcast) => true,
        (MessageChannel::Multicast(x), MessageChannel::Multicast(y)) => x@ == y@,
        (MessageChannel::Request { timeout_ms: x }, MessageChannel::Request { timeout_ms: y }) => x == y,
        _ => false,
    }
}

/// An owned copy of `c`.
fn copy_channel(c: &MessageChannel) -> (r: MessageChannel)
    ensures
        same_channel(r, *c),
{
    match c {
        MessageChannel::Direct => MessageChannel::Direct,
        MessageChannel::Broadcast => MessageChannel::Broadcast,
        MessageChannel::Multicast(v) => MessageChannel::Multicast(copy_ids(v)),
        MessageChannel::Request { timeout_ms } => MessageChannel::Request { timeout_ms: *timeout_ms },
    }
}

impl<C> MessageRouter<C> {
    /// The fighters with a mailbox, in registration order.
    pub closed spec fn registered(&self) -> Seq<FighterId> {
        self.mailboxes@.map_values(|p: (FighterId, mpsc::Sender<AgentMessage<C>>)| p.0)
    }

    /// The ids of the requests awaiting a response.
    pub closed spec fn pending_ids(&self) -> Seq<u128> {
        self.pending@.map_values(|p: (u128, oneshot::Sender<AgentMessage<C>>)| p.0)
    }

    /// The dead letters, oldest first.
    pub closed spec fn dead_letters(&self) -> Seq<AgentMessage<C>> {
        self.dead_letters.letters()
    }

    /// One mailbox per fighter, one entry per request, and the dead letters
    /// within bounds.
    pub closed spec fn wf(&self) -> bool {
        &&& self.registered().no_duplicates()
        &&& self.pending_ids().no_duplicates()
        &&& self.dead_letters.wf()
    }

    /// A router with no mailboxes.
    pub fn new() -> (r: MessageRouter<C>)
        ensures
            r.wf(),
            r.registered() == Seq::<FighterId>::empty(),
            r.pending_ids() == Seq::<u128>::empty(),
            r.dead_letters() == Seq::<AgentMessage<C>>::empty(),
    {
        let r = MessageRouter { mailboxes: Vec::new(), dead_letters: DeadLetterQueue::new(), pending: Vec::new() };
        assert(r.registered() =~= Seq::<FighterId>::empty());
        assert(r.pending_ids() =~= Seq::<u128>::empty());
        r
    }

    fn mailbox_of(&self, id: FighterId) -> (p: Option<usize>)
        requires
            self.wf(),
        ensures
            match p {
                Some(i) => i < self.registered().len() && self.registered()[i as int] == id,
                None => !self.registered().contains(id),
            },
    {
        let mut i: usize = 0;
        while i < self.mailboxes.len()
            invariant
                i <= self.mailboxes@.len(),
                forall|j: int| 0 <= j < i ==> self.mailboxes@[j].0 != id,
            decreases self.mailboxes@.len() - i,
        {
            if self.mailboxes[i].0 == id {
                return Some(i);
            }
            i = i + 1;
        }
        proof {
            if self.registered().contains(id) {
                let j = choose|j: int| 0 <= j < self.registered().len() && self.registered()[j] == id;
                assert(self.mailboxes@[j].0 == id);
            }
        }
        None
    }

    /// Open a mailbox for `id` (replacing an earlier one) and give its
    /// receiving end.
    pub fn register(&mut self, id: FighterId) -> (rx: mpsc::Receiver<AgentMessage<C>>)
        requires
            old(self).wf(),
        ensures
            final(self).wf(),
            final(self).registered().to_set() == old(self).registered().to_set().insert(id),
            final(self).pending_ids() == old(self).pending_ids(),
            final(self).dead_letters() == old(self).dead_letters(),
    {
        let (tx, rx) = mailbox_channel();
        let ghost r0 = self.registered();
        match self.mailbox_of(id) {
            Some(i) => {
                self.mailboxes.set(i, (id, tx));
                proof {
                    assert(self.registered() =~= r0);
                    assert(r0.to_set().insert(id) =~= r0.to_set());
                }
            },
            None => {
                self.mailboxes.push((id, tx));
                proof {
                    assert(self.registered() =~= r0.push(id));
                    r0.lemma_push_to_set_commute(id);
                    assert forall|a: int, b: int| 0 <= a < b < self.registered().len() implies self.registered()[a]
                        != self.registered()[b] by {
                        if b == r0.len() {
                            assert(r0.contains(r0[a]));
                        }
                    }
                }
            },
        }
        rx
    }

    /// Close the mailbox of `id`, if it has one.
    pub fn unregister(&mut self, id: &FighterId)
        requires
            old(self).wf(),
        ensures
            final(self).wf(),
            final(self).registered().to_set() == old(self).registered().to_set().remove(*id),
            final(self).pending_ids() == old(self).pending_ids(),
            final(self).dead_letters() == old(self).dead_letters(),
    {
        let ghost r0 = self.registered();
        match self.mailbox_of(*id) {
            Some(i) => {
                let _closed = self.mailboxes.remove(i);
                proof {
                    let r1 = self.registered();
                    assert(r1 =~= r0.remove(i as int));
                    assert forall|a: int, b: int| 0 <= a < b < r1.len() implies r1[a] != r1[b] by {
                        let a0 = if a < i { a } else { a + 1 };
                        let b0 = if b < i { b } else { b + 1 };
                        assert(r1[a] == r0[a0] && r1[b] == r0[b0]);
                    }
                    assert forall|x: FighterId| r1.to_set().contains(x) <==> r0.to_set().remove(*id).contains(x) by {
                        if r1.contains(x) {
                            let j = choose|j: int| 0 <= j < r1.len() && r1[j] == x;
                            let j0 = if j < i { j } else { j + 1 };
                            assert(r0[j0] == x && j0 != i);
                        }
                        if r0.contains(x) && x != *id {
                            let j0 = choose|j: int| 0 <= j < r0.len() && r0[j] == x;
                            assert(j0 != i);
                            let j = if j0 < i { j0 } else { j0 - 1 };
                            assert(r1[j] == x);
                        }
                    }
                    assert(r1.to_set() =~= r0.to_set().remove(*id));
                }
            },
            None => {
                assert(r0.to_set().remove(*id) =~= r0.to_set());
            },
        }
    }

    /// Whether `id` has a mailbox.
    pub fn is_registered(&self, id: &FighterId) -> (b: bool)
        requires
            self.wf(),
        ensures
            b == self.registered().contains(*id),
    {
        self.mailbox_of(*id).is_some()
    }

    /// Number of mailboxes.
    pub fn registered_count(&self) -> (n: usize)
        requires
            self.wf(),
        ensures
            n == self.registered().to_set().len(),
    {
        proof { self.registered().unique_seq_to_set(); }
        self.mailboxes.len()
    }

    /// Number of dead letters.
    pub fn dead_letter_count(&self) -> (n: usize)
        ensures
            n == self.dead_letters().len(),
    {
        self.dead_letters.len()
    }

    /// Take out all dead letters, oldest first.
    pub fn drain_dead_letters(&mut self) -> (r: Vec<AgentMessage<C>>)
        requires
            old(self).wf(),
        ensures
            final(self).wf(),
            r@ == old(self).dead_letters(),
            final(self).dead_letters() == Seq::<AgentMessage<C>>::empty(),
            final(self).registered() == old(self).registered(),
            final(self).pending_ids() == old(self).pending_ids(),
    {
        self.dead_letters.drain()
    }


    /// Send `content` from `from` to `to`. Gives the message's id when it
    /// went into the mailbox.
    pub fn send_direct(&mut self, from: FighterId, to: FighterId, content: C, priority: MessagePriority) -> (r: Result<
        u128,
        RouterError,
    >)
        requires
            old(self).wf(),
        ensures
            final(self).wf(),
            final(self).registered() == old(self).registered(),
            final(self).pending_ids() == old(self).pending_ids(),
            exists|m: AgentMessage<C>|
                fresh_message(m, from, to, MessageChannel::Direct, content, priority) && #[trigger] delivery(
                    old(self).registered(),
                    old(self).dead_letters(),
                    final(self).dead_letters(),
                    m,
                    r,
                ),
    {
        let msg = AgentMessage {
            id: new_uuid(),
            from,
            to,
            channel: MessageChannel::Direct,
            content,
            priority,
            timestamp: now_ms(),
            delivered: false,
        };
        let ghost m = msg;
        let r = self.deliver(msg);
        assert(fresh_message(m, from, to, MessageChannel::Direct, content, priority));
        r
    }

    /// Pull the sender of request `id` out of the pending list.
    fn take_pending(&mut self, id: u128) -> (r: Option<oneshot::Sender<AgentMessage<C>>>)
        requires
            old(self).wf(),
        ensures
            final(self).wf(),
            final(self).registered() == old(self).registered(),
            final(self).dead_letters() == old(self).dead_letters(),
            final(self).pending_ids().to_set() == old(self).pending_ids().to_set().remove(id),
            r is Some <==> old(self).pending_ids().contains(id),
    {
        let ghost p0 = self.pending_ids();
        let mut i: usize = 0;
        while i < self.pending.len()
            invariant
                i <= self.pending@.len(),
                p0 == self.pending_ids(),
                forall|j: int| 0 <= j < i ==> self.pending@[j].0 != id,
            ensures
                i <= self.pending@.len(),
                forall|j: int| 0 <= j < i ==> self.pending@[j].0 != id,
                i < self.pending@.len() ==> self.pending@[i as int].0 == id,
            decreases self.pending@.len() - i,
        {
            if self.pending[i].0 == id {
                break;
            }
            i = i + 1;
        }
        if i < self.pending.len() {
            let (_, tx) = self.pending.remove(i);
            proof {
                assert(self.pending_ids() =~= p0.remove(i as int));
                assert(p0[i as int] == id);
                lemma_remove_unique(p0, i as int);
            }
            Some(tx)
        } else {
            proof {
                if p0.contains(id) {
                    let j = choose|j: int| 0 <= j < p0.len() && p0[j] == id;
                    assert(self.pending@[j].0 == id);
                }
                assert(p0.to_set().remove(id) =~= p0.to_set());
            }
            None
        }
    }

    /// Send a request from `from` to `to` that waits `timeout` for a
    /// response. Gives the request's id and the end on which the response
    /// arrives when it went into the mailbox. The request stays listed as
    /// pending either way, until it is answered or cancelled.
    pub fn begin_request(&mut self, from: FighterId, to: FighterId, content: C, timeout: Duration) -> (r: Result<
        (u128, oneshot::Receiver<AgentMessage<C>>),
        RouterError,
    >)
        requires
            old(self).wf(),
            timeout.wf(),
        ensures
            final(self).wf(),
            final(self).registered() == old(self).registered(),
            exists|m: AgentMessage<C>|
                {
                    &&& fresh_message(
                        m,
                        from,
                        to,
                        MessageChannel::Request { timeout_ms: (timeout@ / 1_000_000) as u64 },
                        content,
                        MessagePriority::High,
                    )
                    &&& final(self).pending_ids().to_set() == old(self).pending_ids().to_set().insert(m.id)
                    &&& #[trigger] delivery(
                        old(self).registered(),
                        old(self).dead_letters(),
                        final(self).dead_letters(),
                        m,
                        request_result(r),
                    )
                },
    {
        let msg_id = new_uuid();
        let (tx, rx) = reply_channel();
        let _replaced = self.take_pending(msg_id);
        let ghost p1 = self.pending_ids();
        self.pending.push((msg_id, tx));
        proof {
            assert(self.pending_ids() =~= p1.push(msg_id));
            p1.lemma_push_to_set_commute(msg_id);
            assert(!p1.contains(msg_id)) by {
                if p1.contains(msg_id) {
                    assert(p1.to_set().contains(msg_id));
                }
            }
            assert forall|a: int, b: int| 0 <= a < b < self.pending_ids().len() implies self.pending_ids()[a]
                != self.pending_ids()[b] by {
                if b == p1.len() {
                    assert(p1.contains(p1[a]));
                }
            }
            assert(self.pending_ids().to_set() =~= old(self).pending_ids().to_set().insert(msg_id));
        }
        let ms = timeout.as_millis();
        #[verifier::truncate]
        let timeout_ms = ms as u64;
        let msg = AgentMessage {
            id: msg_id,
            from,
            to,
            channel: MessageChannel::Request { timeout_ms },
            content,
            priority: MessagePriority::High,
            timestamp: now_ms(),
            delivered: false,
        };
        let ghost m = msg;
        let ghost pending_now = self.pending_ids();
        let d = self.deliver(msg);
        let r = match d {
            Ok(id) => Ok((id, rx)),
            Err(e) => Err(e),
        };
        assert(fresh_message(
            m,
            from,
            to,
            MessageChannel::Request { timeout_ms: (timeout@ / 1_000_000) as u64 },
            content,
            MessagePriority::High,
        ));
        r
    }

    /// Stop waiting for a response to request `id`.
    pub fn cancel_request(&mut self, id: u128)
        requires
            old(self).wf(),
        ensures
            final(self).wf(),
            final(self).registered() == old(self).registered(),
            final(self).dead_letters() == old(self).dead_letters(),
            final(self).pending_ids().to_set() == old(self).pending_ids().to_set().remove(id),
    {
        let _dropped = self.take_pending(id);
    }

    /// Answer request `original` with `response`.
    pub fn respond(&mut self, original: &u128, response: AgentMessage<C>) -> (r: Result<(), RouterError>)
        requires
            old(self).wf(),
        ensures
            final(self).wf(),
            final(self).registered() == old(self).registered(),
            final(self).dead_letters() == old(self).dead_letters(),
            final(self).pending_ids().to_set() == old(self).pending_ids().to_set().remove(*original),
            !old(self).pending_ids().contains(*original) ==> r == Err::<(), RouterError>(
                RouterError::NoPendingRequest(*original),
            ),
            old(self).pending_ids().contains(*original) ==> (r is Ok || r == Err::<(), RouterError>(
                RouterError::RequesterGone,
            )),
    {
        match self.take_pending(*original) {
            None => Err(RouterError::NoPendingRequest(*original)),
            Some(tx) => match send_reply(tx, response) {
                Ok(()) => Ok(()),
                Err(_) => Err(RouterError::RequesterGone),
            },
        }
    }

    /// The fighters other than `from` that have a mailbox, in registration
    /// order.
    fn targets_except(&self, from: FighterId) -> (t: Vec<FighterId>)
        ensures
            t@ == broadcast_targets(self.registered(), from),
    {
        let ghost reg = self.registered();
        let ghost pred = other_than(from);
        let mut t: Vec<FighterId> = Vec::new();
        let mut i: usize = 0;
        while i < self.mailboxes.len()
            invariant
                i <= self.mailboxes@.len(),
                reg == self.registered(),
                pred == other_than(from),
                t@ == reg.take(i as int).filter(pred),
            decreases self.mailboxes@.len() - i,
        {
            proof { lemma_filter_take_step(reg, i as int, pred); }
            let id = self.mailboxes[i].0;
            if id != from {
                t.push(id);
            }
            i = i + 1;
        }
        assert(reg.take(reg.len() as int) =~= reg);
        t
    }

    /// Put `msg` into its recipient's mailbox; what cannot be put there is
    /// filed as a dead letter.
    fn deliver(&mut self, msg: AgentMessage<C>) -> (r: Result<u128, RouterError>)
        requires
            old(self).wf(),
        ensures
            final(self).wf(),
            final(self).registered() == old(self).registered(),
            final(self).pending_ids() == old(self).pending_ids(),
            delivery(old(self).registered(), old(self).dead_letters(), final(self).dead_letters(), msg, r),
    {
        match self.mailbox_of(msg.to) {
            Some(i) => {
                let to = msg.to;
                let id = msg.id;
                let res = try_send(&self.mailboxes[i].1, msg);
                match res {
                    Ok(()) => Ok(id),
                    Err(SendFailure::Full(back)) => {
                        self.dead_letters.add(back);
                        Err(RouterError::MailboxFull(to))
                    },
                    Err(SendFailure::Closed(back)) => {
                        self.dead_letters.add(back);
                        Err(RouterError::MailboxClosed(to))
                    },
                }
            },
            None => {
                let to = msg.to;
                self.dead_letters.add(msg);
                Err(RouterError::NoMailbox(to))
            },
        }
    }
}

impl<C: Clone> MessageRouter<C> {
    /// Deliver a clone of `content` from `from` to each of `targets` in turn
    /// over `channel`; gives the ids of the messages that went in.
    fn deliver_all(
        &mut self,
        targets: &Vec<FighterId>,
        from: FighterId,
        channel: &MessageChannel,
        content: &C,
        priority: MessagePriority,
    ) -> (ids: Vec<u128>)
        requires
            old(self).wf(),
        ensures
            final(self).wf(),
            final(self).registered() == old(self).registered(),
            final(self).pending_ids() == old(self).pending_ids(),
            exists|sent: Seq<AgentMessage<C>>, outs: Seq<Result<u128, RouterError>>, states: Seq<Seq<AgentMessage<C>>>|
                {
                    &&& sent_to(sent, targets@, from, *channel, *content, priority)
                    &&& #[trigger] trace_ok(
                        old(self).registered(),
                        old(self).dead_letters(),
                        final(self).dead_letters(),
                        sent,
                        outs,
                        states,
                    )
                    &&& ids@ == successes(outs)
                },
    {
        let ghost reg = self.registered();
        let ghost p0 = self.pending_ids();
        let ghost mut sent: Seq<AgentMessage<C>> = Seq::empty();
        let ghost mut outs: Seq<Result<u128, RouterError>> = Seq::empty();
        let ghost mut states: Seq<Seq<AgentMessage<C>>> = seq![self.dead_letters()];
        let mut ids: Vec<u128> = Vec::new();
        let mut i: usize = 0;
        while i < targets.len()
            invariant
                self.wf(),
                i <= targets@.len(),
                reg == self.registered(),
                reg == old(self).registered(),
                p0 == self.pending_ids(),
                p0 == old(self).pending_ids(),
                sent_to(sent, targets@.take(i as int), from, *channel, *content, priority),
                trace_ok(reg, old(self).dead_letters(), self.dead_letters(), sent, outs, states),
                ids@ == successes(outs),
            decreases targets@.len() - i,
        {
            let msg = AgentMessage {
                id: new_uuid(),
                from,
                to: targets[i],
                channel: copy_channel(channel),
                content: content.clone(),
                priority,
                timestamp: now_ms(),
                delivered: false,
            };
            let ghost m = msg;
            let ghost dl_before = self.dead_letters();
            let r = self.deliver(msg);
            proof {
                let sent0 = sent;
                let outs0 = outs;
                let states0 = states;
                sent = sent.push(m);
                outs = outs.push(r);
                states = states.push(self.dead_letters());
                assert(outs.drop_last() =~= outs0);
                assert forall|j: int| 0 <= j < sent.len() implies #[trigger] delivery(
                    reg,
                    states[j],
                    states[j + 1],
                    sent[j],
                    outs[j],
                ) by {
                    if j < sent0.len() {
                        assert(sent[j] == sent0[j] && outs[j] == outs0[j] && states[j] == states0[j] && states[j + 1]
                            == states0[j + 1]);
                    } else {
                        assert(states[j] == dl_before);
                    }
                }
                let tk = targets@.take(i + 1);
                assert forall|j: int| 0 <= j < sent.len() implies {
                    let mm = #[trigger] sent[j];
                    &&& mm.to == tk[j]
                    &&& mm.from == from
                    &&& same_channel(mm.channel, *channel)
                    &&& cloned(*content, mm.content)
                    &&& mm.priority == priority
                    &&& !mm.delivered
                    &&& mm.id != 0
                } by {
                    if j < sent0.len() {
                        assert(sent[j] == sent0[j]);
                        assert(targets@.take(i as int)[j] == tk[j]);
                    }
                }
            }
            match r {
                Ok(id) => {
                    ids.push(id);
                },
                Err(_) => {},
            }
            i = i + 1;
        }
        assert(targets@.take(targets@.len() as int) =~= targets@);
        ids
    }

    /// Send a clone of `content` from `from` to every other fighter with a
    /// mailbox. Gives the ids of the messages that went in.
    pub fn broadcast(&mut self, from: FighterId, content: C, priority: MessagePriority) -> (ids: Vec<u128>)
        requires
            old(self).wf(),
        ensures
            final(self).wf(),
            final(self).registered() == old(self).registered(),
            final(self).pending_ids() == old(self).pending_ids(),
            exists|sent: Seq<AgentMessage<C>>, outs: Seq<Result<u128, RouterError>>, states: Seq<Seq<AgentMessage<C>>>|
                {
                    &&& sent_to(
                        sent,
                        broadcast_targets(old(self).registered(), from),
                        from,
                        MessageChannel::Broadcast,
                        content,
                        priority,
                    )
                    &&& #[trigger] trace_ok(
                        old(self).registered(),
                        old(self).dead_letters(),
                        final(self).dead_letters(),
                        sent,
                        outs,
                        states,
                    )
                    &&& ids@ == successes(outs)
                },
    {
        let targets = self.targets_except(from);
        let channel = MessageChannel::Broadcast;
        self.deliver_all(&targets, from, &channel, &content, priority)
    }

    /// Send a clone of `content` from `from` to each of `targets`. Gives the
    /// ids of the messages that went in.
    pub fn multicast(&mut self, from: FighterId, targets: Vec<FighterId>, content: C, priority: MessagePriority) -> (ids:
        Vec<u128>)
        requires
            old(self).wf(),
        ensures
            final(self).wf(),
            final(self).registered() == old(self).registered(),
            final(self).pending_ids() == old(self).pending_ids(),
            exists|sent: Seq<AgentMessage<C>>, outs: Seq<Result<u128, RouterError>>, states: Seq<Seq<AgentMessage<C>>>|
                {
                    &&& sent_to(sent, targets@, from, MessageChannel::Multicast(targets), content, priority)
                    &&& #[trigger] trace_ok(
                        old(self).registered(),
                        old(self).dead_letters(),
                        final(self).dead_letters(),
                        sent,
                        outs,
                        states,
                    )
                    &&& ids@ == successes(outs)
                },
    {
        let channel = MessageChannel::Multicast(copy_ids(&targets));
        self.deliver_all(&targets, from, &channel, &content, priority)
    }
}

/// The delivery outcome of a request: its id when it went in.
pub open spec fn request_result<T>(r: Result<(u128, T), RouterError>) -> Result<u128, RouterError> {
    match r {
        Ok((id, _)) => Ok(id),
        Err(e) => Err(e),
    }
}

/// What delivering `msg` does: to a fighter without a mailbox it is filed
/// as a dead letter with `NoMailbox`; to one with a mailbox it either goes
/// in (the result is its id and the dead letters stay) or is filed as a dead
/// letter with `MailboxFull` or `MailboxClosed`.
pub open spec fn delivery<C>(
    registered: Seq<FighterId>,
    before: Seq<AgentMessage<C>>,
    after: Seq<AgentMessage<C>>,
    msg: AgentMessage<C>,
    r: Result<u128, RouterError>,
) -> bool {
    if !registered.contains(msg.to) {
        r == Err::<u128, RouterError>(RouterError::NoMailbox(msg.to)) && after == with_dead_letter(before, msg)
    } else {
        match r {
            Ok(id) => id == msg.id && after == before,
            Err(e) => (e == RouterError::MailboxFull(msg.to) || e == RouterError::MailboxClosed(msg.to))
                && after == with_dead_letter(before, msg),
        }
    }
}

/// A broadcast never goes back to its sender, and reaches every other
/// registered fighter.
pub proof fn lemma_broadcast_targets(registered: Seq<FighterId>, from: FighterId, x: FighterId)
    ensures
        broadcast_targets(registered, from).contains(x) <==> (registered.contains(x) && x != from),
{
    let t = broadcast_targets(registered, from);
    let p = other_than(from);
    broadcast use vstd::seq_lib::group_filter_ensures;

    if registered.contains(x) && x != from {
        let i = choose|i: int| 0 <= i < registered.len() && registered[i] == x;
        assert(p(registered[i]));
        assert(t.contains(registered[i]));
    }
    if t.contains(x) {
        registered.lemma_filter_contains_rev(p, x);
        let j = choose|j: int| 0 <= j < t.len() && t[j] == x;
        assert(p(t[j]));
    }
}

/// The dead letters never exceed `MAX_DEAD_LETTERS`, and the newest one is
/// always the last letter filed.
pub proof fn lemma_dead_letters_bounded<M>(q: Seq<M>, m: M)
    requires
        q.len() <= MAX_DEAD_LETTERS,
    ensures
        with_dead_letter(q, m).len() <= MAX_DEAD_LETTERS,
        with_dead_letter(q, m).last() == m,
{
}

} // verus!
