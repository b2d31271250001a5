use tacos_test_server::config::{Config, QueueConfig, ServerConfig, TestConfig};

#[test]
fn default_settings() {
    let config = Config::default();
    assert_eq!(config.server.bind_address, "[::]");
    assert_eq!(config.server.bind_port, 3000);
    assert_eq!(config.server.concurrency, 16);
    assert_eq!(config.server.channel_size, 1024);
    assert_eq!(config.server.tmp_file_dir, "/tmp");
    assert_eq!(config.server.upload_file_size_limit_bytes, 5242880);
    assert_eq!(config.queue.max_requests, 100);
    assert_eq!(config.queue.max_results, 1000);
    assert_eq!(config.test.time_limit_secs, 1800);
    assert_eq!(config.test.lab_command.len(), 0);
}

#[test]
fn default_settings_by_part() {
    assert_eq!(ServerConfig::default().bind_port, 3000);
    assert_eq!(QueueConfig::default().max_requests, 100);
    assert_eq!(TestConfig::default().time_limit_secs, 1800);
}

#[test]
fn bind_address_with_port() {
    let mut config = ServerConfig::default();
    assert_eq!(config.get_bind_addr(), "[::]:3000");
    config.bind_address = "127.0.0.1".to_string();
    config.bind_port = 65535;
    assert_eq!(config.get_bind_addr(), "127.0.0.1:65535");
    config.bind_port = 0;
    assert_eq!(config.get_bind_addr(), "127.0.0.1:0");
}

#[test]
fn time_limit_in_milliseconds() {
    let mut config = TestConfig::default();
    assert_eq!(config.time_limit_ms(), 1_800_000);
    config.time_limit_secs = 0;
    assert_eq!(config.time_limit_ms(), 0);
}
