//! Settings of the stand-alone web server, set up with a builder.

use vstd::prelude::*;
use crate::text::{address_string, address_text};

verus! {

/// What a `WenfoxServer` holds: the host and port it listens on and whether
/// the web service and the proxy service are on.
pub struct ServerSettings {
    pub host: Seq<char>,
    pub port: u16,
    pub web: bool,
    pub proxy: bool,
}

/// The settings of the stand-alone web server.
pub struct WenfoxServer {
    host: String,
    port: u16,
    web: bool,
    proxy: bool,
}

impl View for WenfoxServer {
    type V = ServerSettings;

    closed spec fn view(&self) -> ServerSettings {
        ServerSettings { host: self.host@, port: self.port, web: self.web, proxy: self.proxy }
    }
}

impl WenfoxServer {
    /// The default settings: host `127.0.0.1`, port 9803, web service on,
    /// proxy off.
    pub fn new() -> (s: WenfoxServer)
        ensures
            s@.host == "127.0.0.1"@,
            s@.port == 9803,
            s@.web,
            !s@.proxy,
    {
        WenfoxServer { host: String::from_str("127.0.0.1"), port: 9803, web: true, proxy: false }
    }

    /// The same settings with the host `host`.
    pub fn with_host(self, host: &str) -> (s: WenfoxServer)
        ensures
            s@ == (ServerSettings { host: host@, ..self@ }),
    {
        let mut s = self;
        s.host = String::from_str(host);
        s
    }

    /// The same settings with the port `port`.
    pub fn with_port(self, port: u16) -> (s: WenfoxServer)
        ensures
            s@ == (ServerSettings { port, ..self@ }),
    {
        let mut s = self;
        s.port = port;
        s
    }

    /// The same settings with the web service on or off.
    pub fn with_web(self, web: bool) -> (s: WenfoxServer)
        ensures
            s@ == (ServerSettings { web, ..self@ }),
    {
        let mut s = self;
        s.web = web;
        s
    }

    /// The same settings with the proxy service on or off.
    pub fn with_proxy(self, proxy: bool) -> (s: WenfoxServer)
        ensures
            s@ == (ServerSettings { proxy, ..self@ }),
    {
        let mut s = self;
        s.proxy = proxy;
        s
    }

    /// The address the server binds to: `host:port`.
    pub fn bind_address(&self) -> (r: String)
        ensures
            r@ == address_text(self@.host, self@.port),
    {
        address_string(self.host.as_str(), self.port)
    }

    /// The host the server listens on.
    pub fn host(&self) -> (r: &str)
        ensures
            r@ == self@.host,
    {
        self.host.as_str()
    }

    /// The port the server listens on.
    pub fn port(&self) -> (r: u16)
        ensures
            r == self@.port,
    {
        self.port
    }

    /// Whether the web service is on.
    pub fn web(&self) -> (r: bool)
        ensures
            r == self@.web,
    {
        self.web
    }

    /// Whether the proxy service is on.
    pub fn proxy(&self) -> (r: bool)
        ensures
            r == self@.proxy,
    {
        self.proxy
    }
}

} // verus!
