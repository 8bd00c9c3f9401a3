//! Speedtest.net servers as listed by the Ookla CLI.

use vstd::prelude::*;
use crate::text::{chars_of, split_at_char, split_chars, string_from_chars};

verus! {

/// A Speedtest.net server.
#[derive(Debug)]
pub struct SpeedtestServer {
    pub id: u32,
    pub name: String,
    pub country: String,
    pub sponsor: String,
    /// "host:port".
    pub host: String,
    pub url: String,
    pub lat: String,
    pub lon: String,
    /// AS of the server, once resolved.
    pub asn: Option<u32>,
    pub as_name: Option<String>,
}

impl SpeedtestServer {
    /// The host name of the server, without its port (what is resolved to
    /// find the AS of the server).
    pub fn host_name(&self) -> (r: String)
        ensures
            r@ == split_at_char(self.host@, ':')[0],
    {
        let cs = chars_of(self.host.as_str());
        let parts = split_chars(cs.as_slice(), ':');
        proof {
            crate::text::lemma_split_nonempty(self.host@, ':');
            assert(parts@.map_values(|v: Vec<char>| v@)[0] == parts@[0]@);
        }
        string_from_chars(&parts[0])
    }
}

} // verus!
