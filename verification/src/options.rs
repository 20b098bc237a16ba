//! The resolved session options handed to the program's components.

use vstd::prelude::*;

verus! {

/// The command line options provided to the program, resolved to plain
/// values. The core only reads the echo flag, the binary-mode flag and
/// chunk size, the ping interval and message, and the startup messages;
/// the rest steers the excluded collaborators (connection setup,
/// authentication, header printing).
#[derive(Debug)]
pub struct Options {
    /// The verbosity level of the application, between 0 (no logging)
    /// and 4 (binary logging).
    pub verbosity: u8,
    /// The WebSocket URL to connect to.
    pub url: String,
    /// Optional: a GET URL to authenticate with before connecting to
    /// the main URL.
    pub login_url: String,
    /// When set, HTTP GET redirection met while calling `login_url` is
    /// followed.
    pub follow_redirect: bool,
    /// Echo outgoing frames alongside the incoming ones; outgoing
    /// frames are prefixed with `"> "`.
    pub echo: bool,
    /// Print the headers of any HTTP request when true.
    pub print_headers: bool,
    /// Extra headers for the upgrade request, each as one
    /// `"key: value"` line.
    pub headers: Vec<String>,
    /// Messages to send once, immediately after connecting.
    pub messages: Vec<String>,
    /// If present, the interval (whole seconds) at which a ping frame
    /// is sent to the server.
    pub ping_interval: Option<u64>,
    /// The text sent to the server in a ping frame.
    pub ping_msg: String,
    /// When set, input is read as binary: fixed-size chunks instead of
    /// text lines.
    pub binary_mode: bool,
    /// The number of bytes per frame when sending binary data.
    pub binary_frame_size: String,
    /// List of OpenSSL cipher suites to be used for SSL connections.
    pub cipher_list: String,
    /// Use RSA-only cipher suites for the SSL key exchange.
    pub rsa_only: bool,
}

impl Options {
    /// Build a new Options object with global defaults.
    pub fn new() -> (r: Options)
        ensures
            r.verbosity == 0,
            r.url@ == Seq::<char>::empty(),
            r.login_url@ == Seq::<char>::empty(),
            r.follow_redirect == false,
            r.echo == false,
            r.print_headers == false,
            r.headers@ == Seq::<String>::empty(),
            r.messages@ == Seq::<String>::empty(),
            r.ping_interval is None,
            r.ping_msg@ == "ping"@,
            r.binary_mode == false,
            r.binary_frame_size@ == "256"@,
            r.cipher_list@ == Seq::<char>::empty(),
            r.rsa_only == false,
    {
        Options {
            verbosity: 0,
            url: String::new(),
            login_url: String::new(),
            follow_redirect: false,
            echo: false,
            print_headers: false,
            headers: Vec::new(),
            messages: Vec::new(),
            ping_interval: None,
            ping_msg: "ping".to_owned(),
            binary_mode: false,
            binary_frame_size: "256".to_owned(),
            cipher_list: String::new(),
            rsa_only: false,
        }
    }
}

} // verus!
