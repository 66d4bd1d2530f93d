use vstd::prelude::*;

verus! {

/// Where the NATS server is and how the telemetry stream is named.
#[derive(Clone)]
pub struct NatsConfig {
    pub server_ip: String,
    pub stream_name: String,
    pub root_subject: String,
    pub payload_subject: String,
}

/// Where the ground station listens for telemetry.
#[derive(Clone)]
pub struct HiveConfig {
    pub udp_ip: String,
    pub udp_read_timeout_seconds: u64,
}

/// Where a bee sends its telemetry, and how often.
#[derive(Clone)]
pub struct BeeConfig {
    pub udp_ip: String,
    pub update_frequency_hz: u64,
}

/// The whole configuration of the swarm.
#[derive(Clone)]
pub struct AppConfig {
    pub nats: NatsConfig,
    pub hive: HiveConfig,
    pub bee: BeeConfig,
}

} // verus!
