//! The embedded server's configuration and the textual address it
//! serves under.

use vstd::prelude::*;
use crate::ids::dec_digits;
use crate::ids::u64_to_dec_string;

verus! {

/// Configuration of the embedded HTTP server. The timeout is held in
/// seconds as a plain number.
#[derive(Debug)]
pub struct ServerConfig {
    pub port: u16,
    pub host: String,
    pub max_connections: usize,
    pub timeout_secs: u64,
    pub max_body_size: usize,
    pub enable_compression: bool,
    pub enable_logging: bool,
}

/// What `start_server` reports once the server runs.
#[derive(Debug)]
pub struct ServerInfo {
    pub url: String,
    pub port: u16,
    pub status: String,
}

impl ServerConfig {
    /// The default configuration on the loopback host at the given port:
    /// 100 connections, a 30 second timeout, a 10 MB body limit, with
    /// compression and logging enabled.
    pub fn new(port: u16) -> (c: ServerConfig)
        ensures
            c.port == port,
            c.host@ == "127.0.0.1"@,
            c.max_connections == 100,
            c.timeout_secs == 30,
            c.max_body_size == 10485760,
            c.enable_compression,
            c.enable_logging,
    {
        ServerConfig {
            port,
            host: String::from_str("127.0.0.1"),
            max_connections: 100,
            timeout_secs: 30,
            max_body_size: 10 * 1024 * 1024,
            enable_compression: true,
            enable_logging: true,
        }
    }

    /// The bind address: the host, a colon, and the port in decimal.
    pub fn address(&self) -> (r: String)
        ensures
            r@ == self.host@ + seq![':'] + dec_digits(self.port as nat),
    {
        let mut out = self.host.clone();
        proof {
            reveal_strlit(":");
        }
        out.append(":");
        let digits = u64_to_dec_string(self.port as u64);
        out.append(digits.as_str());
        proof {
            assert(out@ =~= self.host@ + seq![':'] + dec_digits(self.port as nat));
        }
        out
    }

    /// The URL the server answers under: the address behind `http://`.
    pub fn url(&self) -> (r: String)
        ensures
            r@ == "http://"@ + self.host@ + seq![':'] + dec_digits(self.port as nat),
    {
        let mut out = String::from_str("http://");
        let addr = self.address();
        out.append(addr.as_str());
        proof {
            assert(out@ =~= "http://"@ + self.host@ + seq![':'] + dec_digits(self.port as nat));
        }
        out
    }
}

impl Default for ServerConfig {
    /// The default configuration: port 3456.
    fn default() -> (c: ServerConfig)
        ensures
            c.port == 3456,
            c.host@ == "127.0.0.1"@,
            c.max_connections == 100,
            c.timeout_secs == 30,
            c.max_body_size == 10485760,
            c.enable_compression,
            c.enable_logging,
    {
        ServerConfig::new(3456)
    }
}

} // verus!
