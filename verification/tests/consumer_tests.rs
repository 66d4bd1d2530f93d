use swarm::config::NatsConfig;
use swarm::consumer::{
    batch_request, next_consumer_action, next_message_action, pull_consumer_settings,
    stream_settings, ConsumerAction, ConsumerEvent, MessageAction, MessageEvent,
};

fn nats_config() -> NatsConfig {
    NatsConfig {
        server_ip: String::from("127.0.0.1:4222"),
        stream_name: String::from("hive"),
        root_subject: String::from("bees.>"),
        payload_subject: String::from("bees.payload"),
    }
}

#[test]
fn stream_captures_the_root_subject_in_memory() {
    let settings = stream_settings(&nats_config());
    assert_eq!(settings.name, "hive");
    assert_eq!(settings.subjects, vec![String::from("bees.>")]);
    assert!(settings.in_memory);
}

#[test]
fn consumer_is_durable_and_filters_the_payload_subject() {
    let settings = pull_consumer_settings(&nats_config());
    assert_eq!(settings.name, "hive");
    assert_eq!(settings.durable_name, "hive");
    assert_eq!(settings.filter_subject, "bees.payload");
    assert!(settings.explicit_ack);
}

#[test]
fn batches_hold_two_messages_and_wait_one_second() {
    let request = batch_request();
    assert_eq!(request.max_messages, 2);
    assert_eq!(request.expires_seconds, 1);
}

#[test]
fn consume_loop_decisions() {
    assert_eq!(next_consumer_action(ConsumerEvent::ShutdownSignal), ConsumerAction::Stop);
    assert_eq!(next_consumer_action(ConsumerEvent::BatchConsumed), ConsumerAction::ConsumeNextBatch);
    assert_eq!(next_consumer_action(ConsumerEvent::BatchFailed), ConsumerAction::RetryAfterSeconds(1));
}

#[test]
fn message_decisions() {
    assert_eq!(next_message_action(MessageEvent::Received), MessageAction::Acknowledge);
    assert_eq!(next_message_action(MessageEvent::ReceiveFailed), MessageAction::ReportStreamError);
}
