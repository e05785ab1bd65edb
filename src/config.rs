//! Where to listen.
use vstd::prelude::*;

verus! {

pub struct Config {
    pub host: String,
    pub port: String,
}

impl Default for Config {
    fn default() -> (r: Config)
        ensures
            r.host@ == "127.0.0.1"@,
            r.port@ == "6379"@,
    {
        Config { host: "127.0.0.1".to_owned(), port: "6379".to_owned() }
    }
}

impl Config {
    /// `host:port`.
    pub fn bind_address(&self) -> (r: String)
        ensures
            r@ == self.host@ + ":"@ + self.port@,
    {
        let mut s = self.host.clone();
        s.append(":");
        s.append(self.port.as_str());
        s
    }
}

} // verus!
