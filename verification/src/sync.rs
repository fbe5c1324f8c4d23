//! Which channels get a new message, which an edit and which nothing, and
//! what is remembered once the transport has answered.

use crate::data::{FCPInfo, FCPStorage, Messages, SentMsg, Timestamp};
use crate::msg::{entity_views, is_message, message_text, try_format_msg, MSG_FORMAT};
use crate::text::{decimal, decimal_string, split, split_str, texts, trim, trimmed, units};
use telegram_bot::RawMessageEntity;
use vstd::prelude::*;

verus! {

/// Pause after each call of the transport, in milliseconds.
pub const SLEEP_DURATION_MS: u64 = 2000;

/// The key under which the store keeps what is known about a proposal: the
/// decimal numeral of its id.
pub fn store_key(info: &FCPInfo) -> (key: String)
    ensures
        key@ == decimal(info.id as int),
{
    decimal_string(info.id)
}

/// The channels that a setting names: the pieces between its commas, each
/// without the white space around it.
pub open spec fn targets_of(setting: Seq<char>) -> Seq<Seq<char>> {
    split(setting, ',').map_values(|piece: Seq<char>| trimmed(piece))
}

/// The channels that a setting names, in its order.
pub fn parse_targets(setting: &str) -> (targets: Vec<String>)
    ensures
        texts(targets@) == targets_of(setting@),
{
    let pieces = split_str(setting, ',');
    let mut targets: Vec<String> = Vec::new();
    let mut i: usize = 0;
    while i < pieces.len()
        invariant
            i <= pieces.len(),
            texts(pieces@) == split(setting@, ','),
            texts(targets@) == texts(pieces@).take(i as int).map_values(
                |piece: Seq<char>| trimmed(piece),
            ),
        decreases pieces.len() - i,
    {
        let ghost before = texts(targets@);
        let target = trim(pieces[i].as_str());
        targets.push(target);
        i += 1;
        assert(texts(targets@) =~= before.push(trimmed(pieces@[i - 1]@)));
        assert(texts(pieces@).take(i as int) =~= texts(pieces@).take(i - 1).push(
            pieces@[i - 1]@,
        ));
        assert(texts(targets@) =~= texts(pieces@).take(i as int).map_values(
            |piece: Seq<char>| trimmed(piece),
        ));
    }
    assert(texts(pieces@).take(i as int) =~= texts(pieces@));
    targets
}

/// What a channel needs.
#[derive(Debug, Clone, Copy, PartialEq, Eq, Structural)]
pub enum Plan {
    /// The channel holds the message as it is now: nothing.
    Skip,
    /// The channel holds no message: a new one.
    Send,
    /// The channel holds the message with this handle in an earlier state:
    /// an edit of it.
    Edit(i64),
}

/// Whether a message was written for this date of last change and in the
/// present layout.
pub open spec fn is_current(msg: SentMsg, updated_at: Timestamp) -> bool {
    msg.version == updated_at && msg.format == MSG_FORMAT
}

/// What a channel needs, given the messages sent so far and the proposal's
/// date of last change.
pub open spec fn plan_for(
    messages: Map<Seq<char>, SentMsg>,
    updated_at: Timestamp,
    target: Seq<char>,
) -> Plan {
    if !messages.contains_key(target) {
        Plan::Send
    } else if is_current(messages[target], updated_at) {
        Plan::Skip
    } else {
        Plan::Edit(messages[target].id)
    }
}

/// What the channel needs.
pub fn plan(storage: &FCPStorage, target: &str) -> (p: Plan)
    ensures
        p == plan_for(storage.messages@, storage.info.updated_at, target@),
{
    match storage.messages.get(target) {
        None => Plan::Send,
        Some(msg) => {
            if msg.version == storage.info.updated_at && msg.format == MSG_FORMAT {
                Plan::Skip
            } else {
                Plan::Edit(msg.id)
            }
        },
    }
}

/// What the transport answered.
#[derive(Debug, Clone, Copy, PartialEq, Eq, Structural)]
pub enum Outcome {
    /// A new message was sent and has this handle.
    Sent(i64),
    /// The message was edited.
    Edited,
    /// The call failed.
    Failed,
}

/// The message that is remembered for a channel after the transport's
/// answer, where the answer is the success of what the channel needed.
pub open spec fn delivered(p: Plan, outcome: Outcome, updated_at: Timestamp) -> Option<SentMsg> {
    match (p, outcome) {
        (Plan::Send, Outcome::Sent(id)) => Some(
            SentMsg { id, version: updated_at, format: MSG_FORMAT },
        ),
        (Plan::Edit(id), Outcome::Edited) => Some(
            SentMsg { id, version: updated_at, format: MSG_FORMAT },
        ),
        _ => None,
    }
}

/// The messages that are remembered after the transport's answer for a
/// channel: on success the channel's message is the new one, on failure
/// nothing changes.
pub open spec fn settled(
    messages: Map<Seq<char>, SentMsg>,
    updated_at: Timestamp,
    target: Seq<char>,
    outcome: Outcome,
) -> Map<Seq<char>, SentMsg> {
    match delivered(plan_for(messages, updated_at, target), outcome, updated_at) {
        Some(msg) => messages.insert(target, msg),
        None => messages,
    }
}

/// What follows the transport's answer for a channel.
#[derive(Debug, Clone, Copy, PartialEq, Eq, Structural)]
pub struct Followup {
    /// Whether what is kept about the proposal is to be written to the
    /// store.
    pub persist: bool,
    /// How long to wait before the transport is called again, in
    /// milliseconds.
    pub pause_ms: u64,
}

/// Notes the transport's answer for a channel. Returns whether anything was
/// noted, which is when the store is to be written.
pub fn settle(storage: &mut FCPStorage, target: &str, outcome: Outcome) -> (persist: bool)
    ensures
        final(storage).info == old(storage).info,
        final(storage).messages@ == settled(
            old(storage).messages@,
            old(storage).info.updated_at,
            target@,
            outcome,
        ),
        persist == delivered(
            plan_for(old(storage).messages@, old(storage).info.updated_at, target@),
            outcome,
            old(storage).info.updated_at,
        ) is Some,
{
    let p = plan(storage, target);
    let version = storage.info.updated_at;
    match (p, outcome) {
        (Plan::Send, Outcome::Sent(id)) => {
            storage.messages.insert(target, SentMsg { id, version, format: MSG_FORMAT });
            true
        },
        (Plan::Edit(id), Outcome::Edited) => {
            storage.messages.insert(target, SentMsg { id, version, format: MSG_FORMAT });
            true
        },
        _ => false,
    }
}

/// What the surroundings are asked to do next.
#[derive(Debug, Clone, Copy, PartialEq, Eq, Structural)]
pub enum Action {
    /// Send the message to the channel at this position.
    Send(usize),
    /// Edit the message with this handle in the channel at this position.
    Edit(usize, i64),
    /// Nothing: every channel has been seen to.
    Done,
}

/// The action that sees to the need of the channel at a position.
pub open spec fn action_for(position: usize, p: Plan) -> Action {
    match p {
        Plan::Send => Action::Send(position),
        Plan::Edit(id) => Action::Edit(position, id),
        Plan::Skip => Action::Done,
    }
}

/// One pass over the channels for one proposal: what is kept about the
/// proposal, its message, the channels in their order, and the position of
/// the channel that is seen to next.
#[derive(Debug)]
pub struct Pass {
    pub storage: FCPStorage,
    pub text: String,
    pub entities: Vec<RawMessageEntity>,
    pub targets: Vec<String>,
    pub next: usize,
}

impl Pass {
    /// What the channel at a position needs.
    pub open spec fn plan_at(&self, k: int) -> Plan {
        plan_for(self.storage.messages@, self.storage.info.updated_at, self.targets@[k]@)
    }

    /// Starts a pass for a proposal as the feed gives it now, with the
    /// messages kept from earlier passes and the channels in their order.
    /// The message is written once for all channels. There is no pass where
    /// the message's length in code units cannot be told in an `i64`.
    pub fn begin(info: FCPInfo, saved: Option<FCPStorage>, targets: Vec<String>) -> (r: Option<
        Pass,
    >)
        ensures
            match r {
                Some(pass) => {
                    &&& units(message_text(info@)) <= i64::MAX
                    &&& pass.storage.info == info
                    &&& pass.storage.messages@ == match saved {
                        Some(s) => s.messages@,
                        None => Map::<Seq<char>, SentMsg>::empty(),
                    }
                    &&& is_message(info@, pass.text@, entity_views(pass.entities@))
                    &&& pass.targets == targets
                    &&& pass.next == 0
                },
                None => units(message_text(info@)) > i64::MAX,
            },
    {
        let messages = match saved {
            Some(s) => s.messages,
            None => Messages::new(),
        };
        match try_format_msg(&info) {
            Some((text, entities)) => Some(
                Pass { storage: FCPStorage { info, messages }, text, entities, targets, next: 0 },
            ),
            None => None,
        }
    }

    /// Passes over the channels that hold the message as it is now, for
    /// which nothing is done and nothing is noted, and stops at the first
    /// channel that needs something, or behind the last channel.
    pub fn next_action(&mut self) -> (action: Action)
        ensures
            final(self).storage == old(self).storage,
            final(self).text == old(self).text,
            final(self).entities == old(self).entities,
            final(self).targets == old(self).targets,
            old(self).next <= final(self).next,
            final(self).next <= old(self).next || final(self).next <= old(self).targets.len(),
            forall|k: int|
                old(self).next <= k < final(self).next ==> #[trigger] old(self).plan_at(k)
                    == Plan::Skip,
            final(self).next < old(self).targets.len() ==> {
                &&& old(self).plan_at(final(self).next as int) != Plan::Skip
                &&& action == action_for(
                    final(self).next,
                    old(self).plan_at(final(self).next as int),
                )
            },
            final(self).next >= old(self).targets.len() ==> action == Action::Done,
    {
        while self.next < self.targets.len()
            invariant
                self.storage == old(self).storage,
                self.text == old(self).text,
                self.entities == old(self).entities,
                self.targets == old(self).targets,
                old(self).next <= self.next,
                self.next <= old(self).next || self.next <= old(self).targets.len(),
                forall|k: int|
                    old(self).next <= k < self.next ==> #[trigger] old(self).plan_at(k)
                        == Plan::Skip,
            decreases self.targets.len() - self.next,
        {
            match plan(&self.storage, self.targets[self.next].as_str()) {
                Plan::Send => {
                    return Action::Send(self.next);
                },
                Plan::Edit(id) => {
                    return Action::Edit(self.next, id);
                },
                Plan::Skip => {
                    self.next += 1;
                },
            }
        }
        Action::Done
    }

    /// Notes the transport's answer for the channel at the present position
    /// and moves on to the next channel. The store is to be written where
    /// the answer was a success, and the transport's next call waits
    /// whatever the answer was. Behind the last channel nothing changes and
    /// nothing follows.
    pub fn record(&mut self, outcome: Outcome) -> (then: Followup)
        ensures
            final(self).text == old(self).text,
            final(self).entities == old(self).entities,
            final(self).targets == old(self).targets,
            final(self).storage.info == old(self).storage.info,
            old(self).next < old(self).targets.len() ==> {
                &&& final(self).next == old(self).next + 1
                &&& final(self).storage.messages@ == settled(
                    old(self).storage.messages@,
                    old(self).storage.info.updated_at,
                    old(self).targets@[old(self).next as int]@,
                    outcome,
                )
                &&& then.persist == delivered(
                    old(self).plan_at(old(self).next as int),
                    outcome,
                    old(self).storage.info.updated_at,
                ) is Some
                &&& then.pause_ms == SLEEP_DURATION_MS
            },
            old(self).next >= old(self).targets.len() ==> {
                &&& final(self).next == old(self).next
                &&& final(self).storage.messages@ == old(self).storage.messages@
                &&& then == (Followup { persist: false, pause_ms: 0 })
            },
    {
        if self.next < self.targets.len() {
            let persist = settle(&mut self.storage, self.targets[self.next].as_str(), outcome);
            self.next += 1;
            Followup { persist, pause_ms: SLEEP_DURATION_MS }
        } else {
            Followup { persist: false, pause_ms: 0 }
        }
    }
}

/// A channel that holds the message as it is now needs nothing, and
/// whatever is answered for it, nothing is noted and the store is not
/// written.
pub proof fn lemma_current_channel_untouched(
    messages: Map<Seq<char>, SentMsg>,
    updated_at: Timestamp,
    target: Seq<char>,
    outcome: Outcome,
)
    requires
        messages.contains_key(target),
        is_current(messages[target], updated_at),
    ensures
        plan_for(messages, updated_at, target) == Plan::Skip,
        delivered(plan_for(messages, updated_at, target), outcome, updated_at) is None,
        settled(messages, updated_at, target, outcome) == messages,
{
}

/// After a success the channel holds the message as it is now, with the
/// handle that the transport gave or that was kept, and needs nothing until
/// the proposal or the layout changes. What is kept for the other channels
/// stays as it was.
pub proof fn lemma_success_is_remembered(
    messages: Map<Seq<char>, SentMsg>,
    updated_at: Timestamp,
    target: Seq<char>,
    outcome: Outcome,
)
    requires
        delivered(plan_for(messages, updated_at, target), outcome, updated_at) is Some,
    ensures
        plan_for(settled(messages, updated_at, target, outcome), updated_at, target) == Plan::Skip,
        match outcome {
            Outcome::Sent(id) => !messages.contains_key(target) && settled(
                messages,
                updated_at,
                target,
                outcome,
            )[target].id == id,
            _ => messages.contains_key(target) && settled(
                messages,
                updated_at,
                target,
                outcome,
            )[target].id == messages[target].id,
        },
        forall|other: Seq<char>|
            other != target ==> plan_for(
                settled(messages, updated_at, target, outcome),
                updated_at,
                other,
            ) == #[trigger] plan_for(messages, updated_at, other),
{
}

/// After a failure nothing is noted: the channel needs the next time what
/// it needed this time.
pub proof fn lemma_failure_is_retried(
    messages: Map<Seq<char>, SentMsg>,
    updated_at: Timestamp,
    target: Seq<char>,
)
    ensures
        settled(messages, updated_at, target, Outcome::Failed) == messages,
        delivered(plan_for(messages, updated_at, target), Outcome::Failed, updated_at) is None,
{
}

} // verus!
