use amqp_consumer::handler_message_result::action_result;
use amqp_consumer::handler_message_result::AckCommand;
use amqp_consumer::handler_message_result::HandleMessageResult;

#[test]
fn accept_issues_one_positive_non_multiple_ack() {
    let c = action_result(HandleMessageResult::Ack, 5);
    assert_eq!(c, AckCommand::Ack { delivery_tag: 5, multiple: false });
}

#[test]
fn reject_requeue_issues_nack_with_requeue_for_exact_tag() {
    let c = action_result(HandleMessageResult::NackWithRequeue, 42);
    assert_eq!(c, AckCommand::Nack { delivery_tag: 42, multiple: false, requeue: true });
}

#[test]
fn reject_discard_issues_nack_without_requeue_for_exact_tag() {
    let c = action_result(HandleMessageResult::NackNoRequeue, 7);
    assert_eq!(c, AckCommand::Nack { delivery_tag: 7, multiple: false, requeue: false });
}

#[test]
fn dispatcher_keeps_the_delivery_tag_for_every_verdict() {
    for verdict in [
        HandleMessageResult::Ack,
        HandleMessageResult::NackNoRequeue,
        HandleMessageResult::NackWithRequeue,
    ] {
        let c = action_result(verdict, 123456789012345);
        let tag = match c {
            AckCommand::Ack { delivery_tag, .. } => delivery_tag,
            AckCommand::Nack { delivery_tag, .. } => delivery_tag,
        };
        assert_eq!(tag, 123456789012345);
        let multiple = match c {
            AckCommand::Ack { multiple, .. } => multiple,
            AckCommand::Nack { multiple, .. } => multiple,
        };
        assert!(!multiple);
    }
}
