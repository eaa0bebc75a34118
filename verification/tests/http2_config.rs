use grpc::server::interceptor::http2_framing::DEFAULT_MAX_MESSAGE_SIZE;
use grpc::server::transport::hyper::config::{
    ConnectionAction, ConnectionEvent, ConnectionLoop, ConnectionState,
};
use grpc::server::transport::hyper::{Http2Config, HyperTransport};
use std::time::Duration;

#[test]
fn http2_config_default_all_none() {
    let config = Http2Config::default();
    assert!(config.max_message_size.is_none());
    assert!(config.max_concurrent_streams.is_none());
    assert!(config.initial_connection_window_size.is_none());
    assert!(config.initial_stream_window_size.is_none());
    assert!(config.keep_alive_interval.is_none());
    assert!(config.keep_alive_timeout.is_none());
    assert!(config.max_connection_age.is_none());
    assert!(config.max_connection_age_grace.is_none());
}

#[test]
fn http2_config_builder_returns_default() {
    let config = Http2Config::builder();
    assert!(config.max_message_size.is_none());
}

#[test]
fn http2_config_max_message_size() {
    let config = Http2Config::builder()
        .max_message_size(8 * 1024 * 1024)
        .build();
    assert_eq!(config.max_message_size, Some(8 * 1024 * 1024));
}

#[test]
fn http2_config_max_concurrent_streams() {
    let config = Http2Config::builder()
        .max_concurrent_streams(100)
        .build();
    assert_eq!(config.max_concurrent_streams, Some(100));
}

#[test]
fn http2_config_window_sizes() {
    let config = Http2Config::builder()
        .initial_connection_window_size(1024 * 1024)
        .initial_stream_window_size(512 * 1024)
        .build();
    assert_eq!(config.initial_connection_window_size, Some(1024 * 1024));
    assert_eq!(config.initial_stream_window_size, Some(512 * 1024));
}

#[test]
fn http2_config_keep_alive() {
    let config = Http2Config::builder()
        .keep_alive(Duration::from_secs(30), Duration::from_secs(10))
        .build();
    assert_eq!(config.keep_alive_interval, Some(Duration::from_secs(30)));
    assert_eq!(config.keep_alive_timeout, Some(Duration::from_secs(10)));
}

#[test]
fn http2_config_chained_builder() {
    let config = Http2Config::builder()
        .max_message_size(16 * 1024 * 1024)
        .max_concurrent_streams(200)
        .keep_alive(Duration::from_secs(60), Duration::from_secs(20))
        .build();
    assert_eq!(config.max_message_size, Some(16 * 1024 * 1024));
    assert_eq!(config.max_concurrent_streams, Some(200));
    assert_eq!(config.keep_alive_interval, Some(Duration::from_secs(60)));
    assert_eq!(config.keep_alive_timeout, Some(Duration::from_secs(20)));
    // Unset fields remain None.
    assert!(config.initial_connection_window_size.is_none());
    assert!(config.initial_stream_window_size.is_none());
}

#[test]
fn http2_config_clone() {
    let config = Http2Config::builder()
        .max_message_size(4096)
        .build();
    let cloned = config.clone();
    assert_eq!(cloned.max_message_size, config.max_message_size);
}

#[test]
fn http2_config_max_connection_age() {
    let config = Http2Config::builder()
        .max_connection_age(Duration::from_secs(600))
        .build();
    assert_eq!(config.max_connection_age, Some(Duration::from_secs(600)));
    assert!(config.max_connection_age_grace.is_none());
}

#[test]
fn http2_config_max_connection_age_grace() {
    let config = Http2Config::builder()
        .max_connection_age_grace(Duration::from_secs(30))
        .build();
    assert!(config.max_connection_age.is_none());
    assert_eq!(config.max_connection_age_grace, Some(Duration::from_secs(30)));
}

#[test]
fn http2_config_max_connection_age_with_grace() {
    let config = Http2Config::builder()
        .max_connection_age(Duration::from_secs(600))
        .max_connection_age_grace(Duration::from_secs(30))
        .build();
    assert_eq!(config.max_connection_age, Some(Duration::from_secs(600)));
    assert_eq!(config.max_connection_age_grace, Some(Duration::from_secs(30)));
}

#[test]
fn http2_config_full_chained_builder() {
    let config = Http2Config::builder()
        .max_message_size(8 * 1024 * 1024)
        .max_concurrent_streams(100)
        .keep_alive(Duration::from_secs(30), Duration::from_secs(10))
        .max_connection_age(Duration::from_secs(300))
        .max_connection_age_grace(Duration::from_secs(15))
        .build();
    assert_eq!(config.max_message_size, Some(8 * 1024 * 1024));
    assert_eq!(config.max_concurrent_streams, Some(100));
    assert_eq!(config.keep_alive_interval, Some(Duration::from_secs(30)));
    assert_eq!(config.keep_alive_timeout, Some(Duration::from_secs(10)));
    assert_eq!(config.max_connection_age, Some(Duration::from_secs(300)));
    assert_eq!(config.max_connection_age_grace, Some(Duration::from_secs(15)));
}

#[test]
fn http2_config_limits_messages() {
    assert_eq!(
        Http2Config::builder().deframe_config().max_message_size,
        DEFAULT_MAX_MESSAGE_SIZE
    );
    assert_eq!(DEFAULT_MAX_MESSAGE_SIZE, 4 * 1024 * 1024);
    let config = Http2Config::builder().max_message_size(7).build();
    assert_eq!(config.deframe_config().max_message_size, 7);
}

#[test]
fn connections_have_the_configuration_of_their_transport() {
    let transport = HyperTransport::new("listener").with_config(Http2Config::builder().max_message_size(9));
    assert_eq!(*transport.listener(), "listener");
    let (io, config) = transport.connection(17).into_parts();
    assert_eq!(io, 17);
    assert_eq!(config.max_message_size, Some(9));
}

#[test]
fn a_connection_goes_away_once_for_each_cause() {
    let config = Http2Config::builder()
        .max_connection_age(Duration::from_secs(300))
        .max_connection_age_grace(Duration::from_secs(15));
    let mut l = ConnectionLoop::new(config, true);
    assert_eq!(
        l.state(),
        ConnectionState { age_armed: true, grace_armed: false, shutdown_armed: true }
    );
    assert_eq!(l.step(ConnectionEvent::Shutdown), ConnectionAction::GoAway(None));
    assert_eq!(
        l.step(ConnectionEvent::AgeReached),
        ConnectionAction::GoAway(Some(Duration::from_secs(15)))
    );
    assert_eq!(
        l.state(),
        ConnectionState { age_armed: false, grace_armed: true, shutdown_armed: false }
    );
    assert_eq!(l.step(ConnectionEvent::GraceOver), ConnectionAction::Close);
}

#[test]
fn grace_without_age_has_no_effect() {
    let config = Http2Config::builder().max_connection_age_grace(Duration::from_secs(15));
    let mut l = ConnectionLoop::new(config, false);
    assert_eq!(
        l.state(),
        ConnectionState { age_armed: false, grace_armed: false, shutdown_armed: false }
    );
    assert_eq!(l.step(ConnectionEvent::Done), ConnectionAction::Close);
}

#[test]
fn age_without_grace_drains_without_end() {
    let config = Http2Config::builder().max_connection_age(Duration::from_secs(300));
    let mut l = ConnectionLoop::new(config, false);
    assert_eq!(l.step(ConnectionEvent::AgeReached), ConnectionAction::GoAway(None));
    assert!(!l.state().grace_armed);
}
