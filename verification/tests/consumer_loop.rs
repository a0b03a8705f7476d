use amqp_consumer::consumer::consume_items;
use amqp_consumer::consumer::start;
use amqp_consumer::consumer::step;
use amqp_consumer::consumer::DeliveredMessage;
use amqp_consumer::consumer::LoopAction;
use amqp_consumer::consumer::LoopEvent;
use amqp_consumer::consumer::LoopState;
use amqp_consumer::consumer::MessageHandler;
use amqp_consumer::consumer::StreamItem;
use amqp_consumer::handler_message_result::AckCommand;
use amqp_consumer::handler_message_result::HandleMessageResult;

struct AlwaysAccept;

impl MessageHandler<()> for AlwaysAccept {
    fn decide(&self, _message: &DeliveredMessage, _args: Option<&()>) -> HandleMessageResult {
        HandleMessageResult::Ack
    }
}

/// Accepts the delivery with tag 1, rejects-and-discards every other one.
struct AcceptOnlyFirst;

impl MessageHandler<()> for AcceptOnlyFirst {
    fn decide(&self, message: &DeliveredMessage, _args: Option<&()>) -> HandleMessageResult {
        if message.delivery_tag == 1 {
            HandleMessageResult::Ack
        } else {
            HandleMessageResult::NackNoRequeue
        }
    }
}

/// Requeues while no context value is supplied, accepts once one is.
struct AcceptWhenConfigured;

impl MessageHandler<u32> for AcceptWhenConfigured {
    fn decide(&self, _message: &DeliveredMessage, args: Option<&u32>) -> HandleMessageResult {
        match args {
            Some(_) => HandleMessageResult::Ack,
            None => HandleMessageResult::NackWithRequeue,
        }
    }
}

fn delivered(tag: u64) -> StreamItem {
    StreamItem::Delivered(DeliveredMessage { delivery_tag: tag, payload: vec![1, 2, 3] })
}

#[test]
fn all_accepted_messages_get_one_ack_each_in_delivery_order() {
    let items = vec![delivered(1), delivered(2), delivered(3)];
    let acks = consume_items(&AlwaysAccept, None, &items);
    assert_eq!(
        acks,
        vec![
            AckCommand::Ack { delivery_tag: 1, multiple: false },
            AckCommand::Ack { delivery_tag: 2, multiple: false },
            AckCommand::Ack { delivery_tag: 3, multiple: false },
        ]
    );
}

#[test]
fn empty_stream_prefix_issues_no_acknowledgment() {
    let items: Vec<StreamItem> = Vec::new();
    let acks = consume_items(&AlwaysAccept, None, &items);
    assert!(acks.is_empty());
}

#[test]
fn error_item_between_two_messages_skips_neither_and_duplicates_neither() {
    let items = vec![
        StreamItem::TransportError,
        delivered(1),
        StreamItem::TransportError,
        delivered(2),
        StreamItem::TransportError,
    ];
    let acks = consume_items(&AlwaysAccept, None, &items);
    assert_eq!(
        acks,
        vec![
            AckCommand::Ack { delivery_tag: 1, multiple: false },
            AckCommand::Ack { delivery_tag: 2, multiple: false },
        ]
    );
}

#[test]
fn three_item_scenario_acks_first_nacks_second_and_skips_the_error() {
    let items = vec![delivered(1), StreamItem::TransportError, delivered(2)];
    let acks = consume_items(&AcceptOnlyFirst, None, &items);
    assert_eq!(
        acks,
        vec![
            AckCommand::Ack { delivery_tag: 1, multiple: false },
            AckCommand::Nack { delivery_tag: 2, multiple: false, requeue: false },
        ]
    );
}

#[test]
fn caller_context_is_threaded_into_every_decision() {
    let items = vec![delivered(9)];
    let configured = consume_items(&AcceptWhenConfigured, Some(&7), &items);
    assert_eq!(configured, vec![AckCommand::Ack { delivery_tag: 9, multiple: false }]);
    let unconfigured = consume_items(&AcceptWhenConfigured, None, &items);
    assert_eq!(
        unconfigured,
        vec![AckCommand::Nack { delivery_tag: 9, multiple: false, requeue: true }]
    );
}

#[test]
fn largest_delivery_tag_is_acknowledged_unchanged() {
    let items = vec![delivered(u64::MAX)];
    let acks = consume_items(&AlwaysAccept, None, &items);
    assert_eq!(acks, vec![AckCommand::Ack { delivery_tag: u64::MAX, multiple: false }]);
}

#[test]
fn loop_starts_by_connecting_and_setting_up() {
    assert_eq!(start(), (LoopState::Connecting, LoopAction::Setup));
}

#[test]
fn healthy_cycle_walks_connecting_subscribing_consuming() {
    let (s1, a1) = step(LoopState::Connecting, &LoopEvent::ChannelReady, &AlwaysAccept, None);
    assert_eq!((s1, a1), (LoopState::Subscribing, LoopAction::Subscribe));
    let (s2, a2) = step(s1, &LoopEvent::SubscriptionReady, &AlwaysAccept, None);
    assert_eq!((s2, a2), (LoopState::Consuming, LoopAction::PullNext));
}

#[test]
fn delivered_item_is_acknowledged_and_consuming_continues() {
    let event = LoopEvent::Item(delivered(11));
    let (state, action) = step(LoopState::Consuming, &event, &AlwaysAccept, None);
    assert_eq!(state, LoopState::Consuming);
    assert_eq!(
        action,
        LoopAction::Acknowledge(AckCommand::Ack { delivery_tag: 11, multiple: false })
    );
}

#[test]
fn stream_error_is_recorded_and_consuming_continues() {
    let event = LoopEvent::Item(StreamItem::TransportError);
    let (state, action) = step(LoopState::Consuming, &event, &AlwaysAccept, None);
    assert_eq!((state, action), (LoopState::Consuming, LoopAction::RecordError));
}

#[test]
fn stream_exhaustion_triggers_a_fresh_setup_cycle_without_acknowledging() {
    let (state, action) = step(LoopState::Consuming, &LoopEvent::StreamEnded, &AlwaysAccept, None);
    assert_eq!((state, action), (LoopState::Connecting, LoopAction::Setup));
}
