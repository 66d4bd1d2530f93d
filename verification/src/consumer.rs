use vstd::prelude::*;
use crate::config::NatsConfig;

verus! {

/// The most messages fetched in one batch.
pub const BATCH_MAX_MESSAGES: usize = 2;

/// How long a batch fetch waits for messages, in seconds.
pub const BATCH_EXPIRES_SECONDS: u64 = 1;

/// How long the consume loop waits after a failed batch, in seconds.
pub const RETRY_DELAY_SECONDS: u64 = 1;

/// The stream that collects all telemetry subjects, held in memory.
pub struct StreamSettings {
    pub name: String,
    pub subjects: Vec<String>,
    pub in_memory: bool,
}

/// A durable pull consumer that reads the payload subject of the stream and
/// acknowledges each message explicitly.
pub struct PullConsumerSettings {
    pub name: String,
    pub durable_name: String,
    pub filter_subject: String,
    pub explicit_ack: bool,
}

/// One fetch of messages from the pull consumer.
#[derive(Debug, Clone, Copy, PartialEq, Eq)]
pub struct BatchRequest {
    pub max_messages: usize,
    pub expires_seconds: u64,
}

/// What the consume loop learns before it decides what to do next.
#[derive(Debug, Clone, Copy, PartialEq, Eq)]
pub enum ConsumerEvent {
    /// The user asked the program to stop.
    ShutdownSignal,
    /// A batch was fetched and all its messages were handled.
    BatchConsumed,
    /// Fetching a batch failed.
    BatchFailed,
}

/// What the consume loop does next.
#[derive(Debug, Clone, Copy, PartialEq, Eq)]
pub enum ConsumerAction {
    Stop,
    ConsumeNextBatch,
    RetryAfterSeconds(u64),
}

/// What one step through a batch yields.
#[derive(Debug, Clone, Copy, PartialEq, Eq)]
pub enum MessageEvent {
    Received,
    ReceiveFailed,
}

/// What is done with one step through a batch.
#[derive(Debug, Clone, Copy, PartialEq, Eq)]
pub enum MessageAction {
    Acknowledge,
    ReportStreamError,
}

/// The stream for `config`: named after the stream, capturing every
/// subject under the root subject, stored in memory.
pub fn stream_settings(config: &NatsConfig) -> (settings: StreamSettings)
    ensures
        settings.name@ == config.stream_name@,
        settings.subjects@.len() == 1,
        settings.subjects@[0]@ == config.root_subject@,
        settings.in_memory,
{
    let mut subjects: Vec<String> = Vec::new();
    subjects.push(config.root_subject.clone());
    StreamSettings { name: config.stream_name.clone(), subjects, in_memory: true }
}

/// The pull consumer for `config`: named, and made durable, after the
/// stream; filtered to the payload subject; with explicit acknowledgement.
pub fn pull_consumer_settings(config: &NatsConfig) -> (settings: PullConsumerSettings)
    ensures
        settings.name@ == config.stream_name@,
        settings.durable_name@ == config.stream_name@,
        settings.filter_subject@ == config.payload_subject@,
        settings.explicit_ack,
{
    PullConsumerSettings {
        name: config.stream_name.clone(),
        durable_name: config.stream_name.clone(),
        filter_subject: config.payload_subject.clone(),
        explicit_ack: true,
    }
}

/// The fetch that each round of the consume loop makes.
pub fn batch_request() -> (request: BatchRequest)
    ensures
        request.max_messages == BATCH_MAX_MESSAGES,
        request.expires_seconds == BATCH_EXPIRES_SECONDS,
{
    BatchRequest { max_messages: BATCH_MAX_MESSAGES, expires_seconds: BATCH_EXPIRES_SECONDS }
}

/// The consume loop's decision: a shutdown signal stops it, a failed batch
/// is retried after a pause, and a consumed batch is followed by the next.
pub fn next_consumer_action(event: ConsumerEvent) -> (action: ConsumerAction)
    ensures
        event == ConsumerEvent::ShutdownSignal ==> action == ConsumerAction::Stop,
        event == ConsumerEvent::BatchConsumed ==> action == ConsumerAction::ConsumeNextBatch,
        event == ConsumerEvent::BatchFailed ==> action == ConsumerAction::RetryAfterSeconds(
            RETRY_DELAY_SECONDS,
        ),
{
    match event {
        ConsumerEvent::ShutdownSignal => ConsumerAction::Stop,
        ConsumerEvent::BatchConsumed => ConsumerAction::ConsumeNextBatch,
        ConsumerEvent::BatchFailed => ConsumerAction::RetryAfterSeconds(RETRY_DELAY_SECONDS),
    }
}

/// A received message is acknowledged; a stream error is reported and the
/// batch goes on.
pub fn next_message_action(event: MessageEvent) -> (action: MessageAction)
    ensures
        event == MessageEvent::Received ==> action == MessageAction::Acknowledge,
        event == MessageEvent::ReceiveFailed ==> action == MessageAction::ReportStreamError,
{
    match event {
        MessageEvent::Received => MessageAction::Acknowledge,
        MessageEvent::ReceiveFailed => MessageAction::ReportStreamError,
    }
}

} // verus!
