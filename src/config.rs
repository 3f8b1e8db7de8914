use vstd::prelude::*;
use vstd::utf8::encode_utf8;
use crate::codec::{number_at, read_number};

verus! {

/// Where the service finds its message bus and its document store, and the port it serves on.
pub struct Config {
    pub nats_url: String,
    pub mongo_url: String,
    pub web_port: usize,
}

/// The port written as decimal digits and nothing else.
pub open spec fn port_of(text: Seq<u8>) -> Option<usize> {
    match number_at(text, 0, usize::MAX as nat) {
        Some((v, e)) => if e == text.len() {
            Some(v as usize)
        } else {
            None
        },
        None => None,
    }
}

fn text_or(v: Option<String>, default: &str) -> (r: String)
    ensures
        r@ == match v {
            Some(t) => t@,
            None => default@,
        },
{
    match v {
        Some(t) => t,
        None => default.to_owned(),
    }
}

impl Config {
    /// Settings from the given values, each falling back to its default when absent:
    /// `nats://nats:4222`, `mongodb://mongo` and port 8080. `None` when the port is not a
    /// decimal number that fits.
    pub fn new(nats_url: Option<String>, mongo_url: Option<String>, web_port: Option<String>) -> (r: Option<Config>)
        ensures
            match web_port {
                Some(p) => r is Some <==> port_of(encode_utf8(p@)) is Some,
                None => r is Some,
            },
            r matches Some(c) ==> {
                &&& c.nats_url@ == match nats_url {
                    Some(t) => t@,
                    None => "nats://nats:4222"@,
                }
                &&& c.mongo_url@ == match mongo_url {
                    Some(t) => t@,
                    None => "mongodb://mongo"@,
                }
                &&& c.web_port == match web_port {
                    Some(p) => port_of(encode_utf8(p@)).unwrap(),
                    None => 8080,
                }
            },
    {
        let port: usize = match web_port {
            Some(p) => {
                let b = p.as_str().as_bytes();
                match read_number(b, 0, usize::MAX as u64) {
                    Some((v, e)) => {
                        if e != b.len() {
                            return None;
                        }
                        v as usize
                    },
                    None => {
                        return None;
                    },
                }
            },
            None => 8080,
        };
        Some(
            Config {
                nats_url: text_or(nats_url, "nats://nats:4222"),
                mongo_url: text_or(mongo_url, "mongodb://mongo"),
                web_port: port,
            },
        )
    }
}

} // verus!
