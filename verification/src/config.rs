//! The settings of the program, with their defaults.

use vstd::prelude::*;
use vstd::string::*;

use crate::table::Table;
use crate::text;

verus! {

/// Settings of the HTTP server.
#[derive(Debug, Clone)]
pub struct ServerConfig {
    /// The address to bind the server to
    /// Default: `[::]`
    pub bind_address: String,
    /// The port to bind the server to
    /// Default: `3000`
    pub bind_port: u16,
    /// The number of workers
    /// Default: `16`
    pub concurrency: usize,
    /// Maximum size of the channel between threads
    /// Default: `1024`
    pub channel_size: usize,
    /// Temp file dir
    /// Default: `/tmp`
    pub tmp_file_dir: String,
    /// Upload file size limit in bytes
    /// Default: `5242880` (5 MB)
    pub upload_file_size_limit_bytes: usize,
}

impl Default for ServerConfig {
    fn default() -> (config: Self)
        ensures
            config.bind_address@ == "[::]"@,
            config.bind_port == 3000,
            config.concurrency == 16,
            config.channel_size == 1024,
            config.tmp_file_dir@ == "/tmp"@,
            config.upload_file_size_limit_bytes == 5_242_880,
    {
        ServerConfig {
            bind_address: "[::]".to_owned(),
            bind_port: 3000,
            concurrency: 16,
            channel_size: 1024,
            tmp_file_dir: "/tmp".to_owned(),
            upload_file_size_limit_bytes: 5 * 1024 * 1024,
        }
    }
}

impl ServerConfig {
    /// Get the full bind address as a string
    pub fn get_bind_addr(&self) -> (addr: String)
        ensures
            addr@ == self.bind_address@ + ":"@ + text::decimal(self.bind_port as nat),
    {
        let mut addr = self.bind_address.clone();
        addr.append(":");
        addr.append(text::decimal_text(self.bind_port as u64).as_str());
        addr
    }
}

/// Settings of the request queue.
#[derive(Debug, Clone)]
pub struct QueueConfig {
    /// Maximum number of requests in the queue
    /// Default: `100`
    pub max_requests: usize,
    /// Maximum number of results to keep
    /// Default: `1000`
    pub max_results: usize,
}

impl Default for QueueConfig {
    fn default() -> (config: Self)
        ensures
            config.max_requests == 100,
            config.max_results == 1000,
    {
        QueueConfig { max_requests: 100, max_results: 1000 }
    }
}

/// Settings of the tests.
#[derive(Debug, Clone)]
pub struct TestConfig {
    /// Time limit for each test in seconds
    /// Default: `1800` (30 minutes)
    pub time_limit_secs: u64,
    /// Lab command mapping
    /// Key: lab name
    /// Value: command and its arguments
    pub lab_command: Table<Vec<String>>,
}

impl Default for TestConfig {
    fn default() -> (config: Self)
        ensures
            config.time_limit_secs == 1800,
            config.lab_command@ == Seq::<(Seq<char>, Vec<String>)>::empty(),
    {
        TestConfig { time_limit_secs: 1800, lab_command: Table::new() }
    }
}

impl TestConfig {
    /// The time limit for each test in milliseconds
    pub fn time_limit_ms(&self) -> (ms: u64)
        requires
            self.time_limit_secs * 1000 <= u64::MAX,
        ensures
            ms == self.time_limit_secs * 1000,
    {
        self.time_limit_secs * 1000
    }
}

/// All settings.
#[derive(Debug, Clone)]
pub struct Config {
    pub server: ServerConfig,
    pub queue: QueueConfig,
    pub test: TestConfig,
}

impl Default for Config {
    fn default() -> (config: Self)
        ensures
            config.server.bind_address@ == "[::]"@,
            config.server.bind_port == 3000,
            config.server.concurrency == 16,
            config.server.channel_size == 1024,
            config.server.tmp_file_dir@ == "/tmp"@,
            config.server.upload_file_size_limit_bytes == 5_242_880,
            config.queue.max_requests == 100,
            config.queue.max_results == 1000,
            config.test.time_limit_secs == 1800,
            config.test.lab_command@ == Seq::<(Seq<char>, Vec<String>)>::empty(),
    {
        Config {
            server: ServerConfig::default(),
            queue: QueueConfig::default(),
            test: TestConfig::default(),
        }
    }
}

} // verus!
