//! Listening endpoints and the per-connection attributes the server keeps.

use vstd::prelude::*;
use crate::rc4::HabboRC4;

verus! {

/// Host and port of a listening server.
pub struct BaseServer {
    host: String,
    port: u16,
}

impl BaseServer {
    pub closed spec fn spec_host(&self) -> Seq<char> {
        self.host@
    }

    pub closed spec fn spec_port(&self) -> u16 {
        self.port
    }

    pub fn new(host: String, port: u16) -> (r: Self)
        ensures
            r.spec_host() == host@,
            r.spec_port() == port,
    {
        BaseServer { host, port }
    }

    pub fn get_host(&self) -> (r: &str)
        ensures
            r@ == self.spec_host(),
    {
        self.host.as_str()
    }

    pub fn get_port(&self) -> (r: u16)
        ensures
            r == self.spec_port(),
    {
        self.port
    }
}

/// Keys under which a connection's attributes are stored.
pub struct GameServerAttributes;

impl GameServerAttributes {
    pub const CLIENT: &'static str = "GameClient";
    pub const CRYPTO_CLIENT: &'static str = "CryptoClient";
    pub const CRYPTO_SERVER: &'static str = "CryptoServer";
}

/// A connection's installed stream cipher.
pub struct CryptoAttribute {
    pub connection_id: u64,
    pub crypto: HabboRC4,
}

} // verus!
