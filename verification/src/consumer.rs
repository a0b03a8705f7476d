//! The consumption loop as a verified state machine.
//!
//! The loop's phases are `Connecting -> Subscribing -> Consuming -> Connecting
//! ...`, with no terminal state.  An unverified driver owns the transport: it
//! performs each [`LoopAction`] the machine returns (set up a channel,
//! register a subscription, pull the next stream item, issue one
//! acknowledgment, record a transport error) and feeds the resulting
//! [`LoopEvent`] back into [`step`].  Every decision — which acknowledgment a
//! delivery earns, that stream-item errors are tolerated, that exhaustion
//! restarts the whole cycle — is made here and proved.

use vstd::prelude::*;

use crate::handler_message_result::AckCommand;
use crate::handler_message_result::HandleMessageResult;
use crate::handler_message_result::action_result;
use crate::handler_message_result::command_for;

verus! {

/// One message as delivered by the broker: the per-channel, monotonically
/// assigned delivery identifier, and the opaque payload.
#[derive(Clone, Debug)]
pub struct DeliveredMessage {
    pub delivery_tag: u64,
    pub payload: Vec<u8>,
}

/// The business logic a caller supplies: one decision per delivered message.
/// `verdict` is the handler's decision as a mathematical function; `decide`
/// must agree with it.  The optional `args` value is caller-owned, read-only
/// context threaded unchanged through every invocation.
pub trait MessageHandler<Ctx> {
    /// The verdict this handler gives for `message` under context `args`.
    /// A verified implementation overrides this with its own decision
    /// function and proves `decide` against it; the default says that the
    /// handler accepts everything.
    open spec fn verdict(&self, message: DeliveredMessage, args: Option<Ctx>) -> HandleMessageResult {
        HandleMessageResult::Ack
    }

    /// Decide what to do with one delivered message.  Must not panic: any
    /// error condition is expressed as one of the two rejection verdicts.
    fn decide(&self, message: &DeliveredMessage, args: Option<&Ctx>) -> (r: HandleMessageResult)
        ensures
            r == self.verdict(*message, deref_opt(args)),
    ;
}

/// The context argument as the specification sees it: `Option<&Ctx>`
/// flattened to `Option<Ctx>`.
pub open spec fn deref_opt<Ctx>(args: Option<&Ctx>) -> Option<Ctx> {
    match args {
        Some(a) => Some(*a),
        None => None,
    }
}

/// One item pulled from a subscription's stream: either a delivered message
/// or a transport-level error, which the loop tolerates item by item.
#[derive(Clone, Debug)]
pub enum StreamItem {
    Delivered(DeliveredMessage),
    TransportError,
}

/// The phase the consumption loop is in.
#[derive(Clone, Copy, Debug, PartialEq, Eq, Structural)]
pub enum LoopState {
    /// Waiting for the topology-setup collaborator to yield a fresh channel.
    Connecting,
    /// Holding a fresh channel; the subscription is not registered yet.
    Subscribing,
    /// Pulling items from the live subscription, one at a time.
    Consuming,
}

/// What the driver observes between two steps of the machine.
#[derive(Clone, Debug)]
pub enum LoopEvent {
    /// The setup collaborator returned a fresh, healthy channel.
    ChannelReady,
    /// The subscription was registered on the current channel.
    SubscriptionReady,
    /// The subscription's stream yielded one item.
    Item(StreamItem),
    /// The subscription's stream is exhausted: the channel is dead.
    StreamEnded,
}

/// What the driver must do next, before it feeds the machine another event.
#[derive(Clone, Copy, Debug, PartialEq, Eq, Structural)]
pub enum LoopAction {
    /// Invoke the topology-setup collaborator for a fresh channel; report
    /// `ChannelReady` when it returns.
    Setup,
    /// Register a subscription on the fresh channel; report
    /// `SubscriptionReady`.  A registration failure is fatal to this cycle:
    /// abort loudly rather than limp on half-initialized.
    Subscribe,
    /// Await the next stream item; report `Item(..)` or `StreamEnded`.
    PullNext,
    /// Issue exactly this acknowledgment against the current channel, await
    /// its completion (aborting loudly if the call itself fails), and only
    /// then pull the next item.
    Acknowledge(AckCommand),
    /// Record the transport error for observability, then pull the next
    /// item from the same subscription.
    RecordError,
}

/// The protocol's transition function.  `None` marks a pair of state and
/// event that the protocol never produces: a driver that performs the
/// returned actions faithfully only ever observes `Some` transitions.
pub open spec fn spec_step<Ctx, H: MessageHandler<Ctx>>(
    state: LoopState,
    event: LoopEvent,
    handler: H,
    args: Option<Ctx>,
) -> Option<(LoopState, LoopAction)> {
    match (state, event) {
        (LoopState::Connecting, LoopEvent::ChannelReady) => Some(
            (LoopState::Subscribing, LoopAction::Subscribe),
        ),
        (LoopState::Subscribing, LoopEvent::SubscriptionReady) => Some(
            (LoopState::Consuming, LoopAction::PullNext),
        ),
        (LoopState::Consuming, LoopEvent::Item(StreamItem::Delivered(m))) => Some(
            (
                LoopState::Consuming,
                LoopAction::Acknowledge(command_for(handler.verdict(m, args), m.delivery_tag)),
            ),
        ),
        (LoopState::Consuming, LoopEvent::Item(StreamItem::TransportError)) => Some(
            (LoopState::Consuming, LoopAction::RecordError),
        ),
        (LoopState::Consuming, LoopEvent::StreamEnded) => Some(
            (LoopState::Connecting, LoopAction::Setup),
        ),
        _ => None,
    }
}

/// The state the loop starts in, and the action that starts the first cycle.
pub fn start() -> (r: (LoopState, LoopAction))
    ensures
        r == (LoopState::Connecting, LoopAction::Setup),
{
    (LoopState::Connecting, LoopAction::Setup)
}

/// One step of the consumption loop: from the current phase and the observed
/// event to the next phase and the action the driver owes.  On a delivered
/// message this invokes the handler and dispatches its verdict; on a
/// stream-item error it keeps consuming; on exhaustion it discards the dead
/// channel and restarts the cycle.
pub fn step<Ctx, H: MessageHandler<Ctx>>(
    state: LoopState,
    event: &LoopEvent,
    handler: &H,
    args: Option<&Ctx>,
) -> (r: (LoopState, LoopAction))
    requires
        spec_step(state, *event, *handler, deref_opt(args)) is Some,
    ensures
        Some(r) == spec_step(state, *event, *handler, deref_opt(args)),
{
    match (state, event) {
        (LoopState::Connecting, LoopEvent::ChannelReady) => (
            LoopState::Subscribing,
            LoopAction::Subscribe,
        ),
        (LoopState::Subscribing, LoopEvent::SubscriptionReady) => (
            LoopState::Consuming,
            LoopAction::PullNext,
        ),
        (LoopState::Consuming, LoopEvent::Item(StreamItem::Delivered(m))) => {
            let verdict = handler.decide(m, args);
            (LoopState::Consuming, LoopAction::Acknowledge(action_result(verdict, m.delivery_tag)))
        },
        (LoopState::Consuming, LoopEvent::Item(StreamItem::TransportError)) => (
            LoopState::Consuming,
            LoopAction::RecordError,
        ),
        (LoopState::Consuming, LoopEvent::StreamEnded) => (
            LoopState::Connecting,
            LoopAction::Setup,
        ),
        _ => vstd::pervasive::unreached(),
    }
}

/// The acknowledgment a single stream item earns under `handler`: exactly
/// one for a delivered message, none for a transport error.
pub open spec fn item_ack<Ctx, H: MessageHandler<Ctx>>(
    handler: H,
    args: Option<Ctx>,
    item: StreamItem,
) -> Option<AckCommand> {
    match item {
        StreamItem::Delivered(m) => Some(command_for(handler.verdict(m, args), m.delivery_tag)),
        StreamItem::TransportError => None,
    }
}

/// The acknowledgments the loop issues, in order, for a finite prefix of one
/// subscription's stream: one per delivered message, each dispatched before
/// the next item is looked at, and nothing for error items.
pub open spec fn acks_of<Ctx, H: MessageHandler<Ctx>>(
    items: Seq<StreamItem>,
    handler: H,
    args: Option<Ctx>,
) -> Seq<AckCommand>
    decreases items.len(),
{
    if items.len() == 0 {
        Seq::empty()
    } else {
        acks_of(items.drop_last(), handler, args) + match item_ack(handler, args, items.last()) {
            Some(c) => seq![c],
            None => Seq::empty(),
        }
    }
}

/// The delivered messages among a stream prefix, in delivery order.
pub open spec fn delivered_messages(items: Seq<StreamItem>) -> Seq<DeliveredMessage>
    decreases items.len(),
{
    if items.len() == 0 {
        Seq::empty()
    } else {
        delivered_messages(items.drop_last()) + match items.last() {
            StreamItem::Delivered(m) => seq![m],
            StreamItem::TransportError => Seq::empty(),
        }
    }
}

/// Extending a stream prefix by one item appends that item's acknowledgment
/// (if any) and nothing else.
pub proof fn lemma_acks_of_take_succ<Ctx, H: MessageHandler<Ctx>>(
    items: Seq<StreamItem>,
    handler: H,
    args: Option<Ctx>,
    i: int,
)
    requires
        0 <= i < items.len(),
    ensures
        acks_of(items.take(i + 1), handler, args) == acks_of(items.take(i), handler, args)
            + (match item_ack(handler, args, items[i]) {
            Some(c) => seq![c],
            None => Seq::empty(),
        }),
{
    assert(items.take(i + 1).drop_last() =~= items.take(i));
    assert(items.take(i + 1).last() == items[i]);
}

/// Process a finite prefix of one subscription's stream: invoke the handler
/// on each delivered message in delivery order and dispatch its verdict
/// before looking at the next item; tolerate error items.  Returns the
/// acknowledgment calls issued, in issue order.
pub fn consume_items<Ctx, H: MessageHandler<Ctx>>(
    handler: &H,
    args: Option<&Ctx>,
    items: &Vec<StreamItem>,
) -> (acks: Vec<AckCommand>)
    ensures
        acks@ == acks_of(items@, *handler, deref_opt(args)),
{
    let mut acks: Vec<AckCommand> = Vec::new();
    let mut i: usize = 0;
    while i < items.len()
        invariant
            0 <= i <= items@.len(),
            acks@ == acks_of(items@.take(i as int), *handler, deref_opt(args)),
        decreases items@.len() - i,
    {
        proof {
            lemma_acks_of_take_succ(items@, *handler, deref_opt(args), i as int);
        }
        match &items[i] {
            StreamItem::Delivered(m) => {
                let verdict = handler.decide(m, args);
                let c = action_result(verdict, m.delivery_tag);
                acks.push(c);
                proof {
                    assert(acks@ =~= acks_of(items@.take(i + 1 as int), *handler, deref_opt(args)));
                }
            },
            StreamItem::TransportError => {
                proof {
                    assert(acks@ =~= acks_of(items@.take(i + 1 as int), *handler, deref_opt(args)));
                }
            },
        }
        i += 1;
    }
    proof {
        assert(items@.take(items@.len() as int) =~= items@);
    }
    acks
}

/// Splitting off the first stream item splits its acknowledgment off the
/// front of the acknowledgment sequence.
pub proof fn lemma_acks_of_cons<Ctx, H: MessageHandler<Ctx>>(
    item: StreamItem,
    rest: Seq<StreamItem>,
    handler: H,
    args: Option<Ctx>,
)
    ensures
        acks_of(seq![item] + rest, handler, args) == (match item_ack(handler, args, item) {
            Some(c) => seq![c],
            None => Seq::empty(),
        }) + acks_of(rest, handler, args),
    decreases rest.len(),
{
    let head = (match item_ack(handler, args, item) {
        Some(c) => seq![c],
        None => Seq::empty(),
    });
    if rest.len() == 0 {
        assert(seq![item] + rest =~= seq![item]);
        assert(seq![item].drop_last() =~= Seq::<StreamItem>::empty());
        assert(seq![item].last() == item);
        assert(acks_of(Seq::<StreamItem>::empty(), handler, args) == Seq::<AckCommand>::empty());
        assert(acks_of(seq![item].drop_last(), handler, args) == Seq::<AckCommand>::empty());
        assert(acks_of(seq![item], handler, args) == Seq::<AckCommand>::empty() + head);
        assert(Seq::<AckCommand>::empty() + head =~= head);
        assert(head + Seq::<AckCommand>::empty() =~= head);
        assert(acks_of(rest, handler, args) == Seq::<AckCommand>::empty());
    } else {
        lemma_acks_of_cons(item, rest.drop_last(), handler, args);
        assert((seq![item] + rest).drop_last() =~= seq![item] + rest.drop_last());
        assert((seq![item] + rest).last() == rest.last());
        let tail = (match item_ack(handler, args, rest.last()) {
            Some(c) => seq![c],
            None => Seq::empty(),
        });
        assert(acks_of(seq![item] + rest, handler, args) == acks_of(
            seq![item] + rest.drop_last(),
            handler,
            args,
        ) + tail);
        assert(acks_of(rest, handler, args) == acks_of(rest.drop_last(), handler, args) + tail);
        assert((head + acks_of(rest.drop_last(), handler, args)) + tail =~= head + (acks_of(
            rest.drop_last(),
            handler,
            args,
        ) + tail));
    }
}

/// Law: acknowledgments follow delivery order exactly.  The k-th
/// acknowledgment the loop issues is the one owed for the k-th delivered
/// message — so no message is skipped, none is acknowledged twice, and the
/// acknowledgment for a later delivery is never issued before the one for an
/// earlier delivery.  With pairwise-distinct delivery identifiers, as the
/// broker assigns them, the identifiers acknowledged are pairwise distinct
/// too.
pub proof fn lemma_acks_follow_delivery_order<Ctx, H: MessageHandler<Ctx>>(
    items: Seq<StreamItem>,
    handler: H,
    args: Option<Ctx>,
)
    ensures
        acks_of(items, handler, args).len() == delivered_messages(items).len(),
        forall|k: int|
            0 <= k < delivered_messages(items).len() ==> acks_of(items, handler, args)[k]
                == command_for(
                handler.verdict(#[trigger] delivered_messages(items)[k], args),
                delivered_messages(items)[k].delivery_tag,
            ),
        forall|k: int|
            0 <= k < delivered_messages(items).len() ==> (#[trigger] acks_of(
                items,
                handler,
                args,
            )[k]).tag() == delivered_messages(items)[k].delivery_tag,
        forall|k: int, j: int|
            0 <= k < j < delivered_messages(items).len() && delivered_messages(
                items,
            )[k].delivery_tag != delivered_messages(items)[j].delivery_tag ==> (#[trigger] acks_of(
                items,
                handler,
                args,
            )[k]).tag() != (#[trigger] acks_of(items, handler, args)[j]).tag(),
    decreases items.len(),
{
    if items.len() > 0 {
        lemma_acks_follow_delivery_order(items.drop_last(), handler, args);
    }
}

/// Law: a run in which the handler accepts every delivered message, and
/// every item is a delivery, issues exactly one positive, non-multiple
/// acknowledgment per message, each naming that message's own delivery
/// identifier, in delivery order.
pub proof fn lemma_all_accepted<Ctx, H: MessageHandler<Ctx>>(
    items: Seq<StreamItem>,
    handler: H,
    args: Option<Ctx>,
)
    requires
        forall|k: int| 0 <= k < items.len() ==> #[trigger] items[k] is Delivered,
        forall|k: int|
            0 <= k < items.len() ==> (#[trigger] items[k] matches StreamItem::Delivered(m)
                ==> handler.verdict(m, args) is Ack),
    ensures
        acks_of(items, handler, args).len() == items.len(),
        forall|k: int|
            0 <= k < items.len() ==> (#[trigger] items[k] matches StreamItem::Delivered(m)
                && acks_of(items, handler, args)[k] == (AckCommand::Ack {
                delivery_tag: m.delivery_tag,
                multiple: false,
            })),
    decreases items.len(),
{
    if items.len() > 0 {
        let n = items.len() as int;
        assert(forall|k: int|
            0 <= k < items.len() - 1 ==> #[trigger] items.drop_last()[k] == items[k]);
        lemma_all_accepted(items.drop_last(), handler, args);
        let prior = acks_of(items.drop_last(), handler, args);
        assert(items[n - 1] == items.last());
        let tail = (match item_ack(handler, args, items.last()) {
            Some(c) => seq![c],
            None => Seq::empty(),
        });
        assert(acks_of(items, handler, args) == prior + tail);
        assert forall|k: int|
            0 <= k < items.len() implies (#[trigger] items[k] matches StreamItem::Delivered(m)
            && acks_of(items, handler, args)[k] == (AckCommand::Ack {
            delivery_tag: m.delivery_tag,
            multiple: false,
        })) by {
            if k < n - 1 {
                assert(items.drop_last()[k] == items[k]);
                assert(acks_of(items, handler, args)[k] == prior[k]);
            } else {
                assert(items[k] is Delivered);
                assert(acks_of(items, handler, args)[k] == tail[0]);
            }
        }
    }
}

/// Law: a stream-item error between two delivered messages is transparent:
/// the acknowledgments issued are exactly those of the same stream without
/// the error item, so neither surrounding message is skipped, duplicated, or
/// acknowledged twice.
pub proof fn lemma_error_items_transparent<Ctx, H: MessageHandler<Ctx>>(
    before: Seq<StreamItem>,
    after: Seq<StreamItem>,
    handler: H,
    args: Option<Ctx>,
)
    ensures
        acks_of(before + seq![StreamItem::TransportError] + after, handler, args) == acks_of(
            before + after,
            handler,
            args,
        ),
    decreases after.len(),
{
    let err = seq![StreamItem::TransportError];
    if after.len() == 0 {
        assert(before + err + after =~= before + err);
        assert(before + after =~= before);
        assert((before + err).drop_last() =~= before);
        assert((before + err).last() == StreamItem::TransportError);
        assert(acks_of(before + err, handler, args) =~= acks_of(before, handler, args));
    } else {
        lemma_error_items_transparent(before, after.drop_last(), handler, args);
        assert((before + err + after).drop_last() =~= before + err + after.drop_last());
        assert((before + err + after).last() == after.last());
        assert((before + after).drop_last() =~= before + after.drop_last());
        assert((before + after).last() == after.last());
    }
}

/// The events one subscription's stream items give rise to, in order.
pub open spec fn item_events(items: Seq<StreamItem>) -> Seq<LoopEvent> {
    items.map_values(|it: StreamItem| LoopEvent::Item(it))
}

/// The acknowledgments among a sequence of actions, in order.
pub open spec fn acks_in(actions: Seq<LoopAction>) -> Seq<AckCommand>
    decreases actions.len(),
{
    if actions.len() == 0 {
        Seq::empty()
    } else {
        (match actions.first() {
            LoopAction::Acknowledge(c) => seq![c],
            _ => Seq::empty(),
        }) + acks_in(actions.drop_first())
    }
}

/// The machine driven over a whole event sequence: the final state and the
/// actions issued, in order, or `None` if some event is one the protocol
/// never produces in its state.
pub open spec fn run_actions<Ctx, H: MessageHandler<Ctx>>(
    state: LoopState,
    events: Seq<LoopEvent>,
    handler: H,
    args: Option<Ctx>,
) -> Option<(LoopState, Seq<LoopAction>)>
    decreases events.len(),
{
    if events.len() == 0 {
        Some((state, Seq::empty()))
    } else {
        match spec_step(state, events.first(), handler, args) {
            Some((next, action)) => match run_actions(next, events.drop_first(), handler, args) {
                Some((last, rest)) => Some((last, seq![action] + rest)),
                None => None,
            },
            None => None,
        }
    }
}

/// From `Consuming`, draining the stream — its items in order, then
/// exhaustion — acknowledges exactly what the items earn and ends back in
/// `Connecting`, with the restarting `Setup` as the last action.
pub proof fn lemma_consuming_drain<Ctx, H: MessageHandler<Ctx>>(
    items: Seq<StreamItem>,
    handler: H,
    args: Option<Ctx>,
)
    ensures
        run_actions(
            LoopState::Consuming,
            item_events(items) + seq![LoopEvent::StreamEnded],
            handler,
            args,
        ) matches Some(r) && ({
            &&& r.0 == LoopState::Connecting
            &&& acks_in(r.1) == acks_of(items, handler, args)
            &&& r.1.len() > 0
            &&& r.1.last() == LoopAction::Setup
        }),
    decreases items.len(),
{
    let events = item_events(items) + seq![LoopEvent::StreamEnded];
    if items.len() == 0 {
        assert(events =~= seq![LoopEvent::StreamEnded]);
        assert(events.first() == LoopEvent::StreamEnded);
        assert(events.drop_first() =~= Seq::<LoopEvent>::empty());
        let tail_run = run_actions(LoopState::Connecting, events.drop_first(), handler, args);
        assert(tail_run == Some((LoopState::Connecting, Seq::<LoopAction>::empty())));
        assert(spec_step(LoopState::Consuming, events.first(), handler, args) == Some(
            (LoopState::Connecting, LoopAction::Setup),
        ));
        assert(run_actions(LoopState::Consuming, events, handler, args) == Some(
            (LoopState::Connecting, seq![LoopAction::Setup] + Seq::<LoopAction>::empty()),
        ));
        let r = run_actions(LoopState::Consuming, events, handler, args).unwrap();
        assert(r.1 =~= seq![LoopAction::Setup]);
        assert(r.1.drop_first() =~= Seq::<LoopAction>::empty());
        assert(acks_in(r.1.drop_first()) == Seq::<AckCommand>::empty());
        assert(acks_in(r.1) =~= Seq::<AckCommand>::empty());
    } else {
        let first = items.first();
        let rest = items.drop_first();
        lemma_consuming_drain(rest, handler, args);
        assert(events.first() == LoopEvent::Item(first));
        assert(events.drop_first() =~= item_events(rest) + seq![LoopEvent::StreamEnded]);
        let stepped = spec_step(LoopState::Consuming, events.first(), handler, args).unwrap();
        let inner = run_actions(
            LoopState::Consuming,
            item_events(rest) + seq![LoopEvent::StreamEnded],
            handler,
            args,
        ).unwrap();
        let r = run_actions(LoopState::Consuming, events, handler, args).unwrap();
        assert(r.1 == seq![stepped.1] + inner.1);
        assert(r.1.last() == inner.1.last());
        assert(seq![stepped.1].drop_first() =~= Seq::<LoopAction>::empty());
        assert((seq![stepped.1] + inner.1).drop_first() =~= inner.1);
        assert(acks_in(r.1) == (match stepped.1 {
            LoopAction::Acknowledge(c) => seq![c],
            _ => Seq::empty(),
        }) + acks_in(inner.1));
        lemma_acks_of_cons(first, rest, handler, args);
        assert(seq![first] + rest =~= items);
    }
}

/// Law: one full healthy cycle — channel ready, subscription registered, a
/// finite run of stream items, then exhaustion — issues exactly the
/// acknowledgments the delivered messages earn, in delivery order, and ends
/// back in `Connecting` with a fresh `Setup` as its last action.  In
/// particular, nothing is acknowledged against the dead channel after the
/// stream ends.
pub proof fn lemma_cycle<Ctx, H: MessageHandler<Ctx>>(
    items: Seq<StreamItem>,
    handler: H,
    args: Option<Ctx>,
)
    ensures
        run_actions(
            LoopState::Connecting,
            seq![LoopEvent::ChannelReady, LoopEvent::SubscriptionReady] + item_events(items)
                + seq![LoopEvent::StreamEnded],
            handler,
            args,
        ) matches Some(r) && ({
            &&& r.0 == LoopState::Connecting
            &&& acks_in(r.1) == acks_of(items, handler, args)
            &&& r.1.len() > 0
            &&& r.1.last() == LoopAction::Setup
        }),
{
    let events = seq![LoopEvent::ChannelReady, LoopEvent::SubscriptionReady] + item_events(items)
        + seq![LoopEvent::StreamEnded];
    let drain = item_events(items) + seq![LoopEvent::StreamEnded];
    lemma_consuming_drain(items, handler, args);
    assert(events.first() == LoopEvent::ChannelReady);
    let e1 = events.drop_first();
    let e2 = e1.drop_first();
    assert(e1.first() == LoopEvent::SubscriptionReady);
    assert(e2 =~= drain);
    let inner = run_actions(LoopState::Consuming, drain, handler, args).unwrap();
    assert(run_actions(LoopState::Consuming, e2, handler, args) == Some(inner));
    assert(spec_step(LoopState::Subscribing, e1.first(), handler, args) == Some(
        (LoopState::Consuming, LoopAction::PullNext),
    ));
    assert(run_actions(LoopState::Subscribing, e1, handler, args) == Some(
        (inner.0, seq![LoopAction::PullNext] + inner.1),
    ));
    assert(spec_step(LoopState::Connecting, events.first(), handler, args) == Some(
        (LoopState::Subscribing, LoopAction::Subscribe),
    ));
    assert(run_actions(LoopState::Connecting, events, handler, args) == Some(
        (inner.0, seq![LoopAction::Subscribe] + (seq![LoopAction::PullNext] + inner.1)),
    ));
    let r = run_actions(LoopState::Connecting, events, handler, args).unwrap();
    assert(r.1 == seq![LoopAction::Subscribe] + (seq![LoopAction::PullNext] + inner.1));
    assert((seq![LoopAction::Subscribe] + (seq![LoopAction::PullNext] + inner.1)).drop_first()
        =~= seq![LoopAction::PullNext] + inner.1);
    assert((seq![LoopAction::PullNext] + inner.1).drop_first() =~= inner.1);
    assert(acks_in(seq![LoopAction::PullNext] + inner.1) == Seq::<AckCommand>::empty() + acks_in(
        inner.1,
    ));
    assert(Seq::<AckCommand>::empty() + acks_in(inner.1) =~= acks_in(inner.1));
    assert(acks_in(r.1) == Seq::<AckCommand>::empty() + acks_in(
        seq![LoopAction::PullNext] + inner.1,
    ));
    assert(acks_in(r.1) == acks_in(inner.1));
    assert(r.1.last() == inner.1.last());
}

/// Law: stream exhaustion is not an acknowledgment.  From `Consuming`, the
/// end of the stream moves the machine back to `Connecting` with `Setup` as
/// the only action owed: a fresh setup -> subscribe cycle, and no further
/// acknowledgment attempt against the old channel.
pub proof fn lemma_exhaustion_restarts_cycle<Ctx, H: MessageHandler<Ctx>>(
    handler: H,
    args: Option<Ctx>,
)
    ensures
        spec_step(LoopState::Consuming, LoopEvent::StreamEnded, handler, args) == Some(
            (LoopState::Connecting, LoopAction::Setup),
        ),
{
}

} // verus!
