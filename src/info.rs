//! What a server knows of itself and of its place in replication, and how
//! that is kept in the store under reserved keys.
use crate::frame::string_from_utf8;
use crate::number::{decimal_digits, lemma_decimal_digits, parse_u16, u16_of};
use crate::store::{after_set, expiry_at, read_result, EntryModel, Store, DEFAULT_EXPIRY};
use crate::text::{decimal_string, opt_text, opt_text_equal, text_equal, utf8_bytes};
use vstd::prelude::*;
use vstd::utf8::{
    decode_utf8, encode_utf8, encode_utf8_decode_utf8, encode_utf8_valid_utf8, valid_utf8,
};

verus! {

pub const DEFAULT_ROLE: &'static str = "master";

pub const DEFAULT_HOST: &'static str = "127.0.0.1";

pub const DEFAULT_PORT: u16 = 6379;

/// The replication id a leader announces.
pub const DEFAULT_MASTER_REPLID: &'static str = "8371b4fb1155b71f4a04d3e1bc3e18c4a990aeeb";

pub struct Replication {
    pub role: String,
    pub master_replid: Option<String>,
    pub master_repl_offset: Option<u64>,
    pub replication_of_host: Option<String>,
    pub replication_of_port: Option<u16>,
}

pub struct Info {
    pub self_host: String,
    pub self_port: u16,
    pub replication: Replication,
}

pub struct ReplicationModel {
    pub role: Seq<char>,
    pub master_replid: Option<Seq<char>>,
    pub master_repl_offset: Option<u64>,
    pub replication_of_host: Option<Seq<char>>,
    pub replication_of_port: Option<u16>,
}

pub struct InfoModel {
    pub self_host: Seq<char>,
    pub self_port: u16,
    pub replication: ReplicationModel,
}

impl View for Replication {
    type V = ReplicationModel;

    open spec fn view(&self) -> ReplicationModel {
        ReplicationModel {
            role: self.role@,
            master_replid: opt_text(self.master_replid),
            master_repl_offset: self.master_repl_offset,
            replication_of_host: opt_text(self.replication_of_host),
            replication_of_port: self.replication_of_port,
        }
    }
}

impl View for Info {
    type V = InfoModel;

    open spec fn view(&self) -> InfoModel {
        InfoModel { self_host: self.self_host@, self_port: self.self_port, replication: self.replication@ }
    }
}

/// Stored values could not be read back as server information.
#[derive(Debug)]
pub enum InfoError {
    InvalidField,
}

/// The role of a leader and of a follower.
pub open spec fn leader_role() -> Seq<char> {
    "master"@
}

pub open spec fn follower_role() -> Seq<char> {
    "slave"@
}

/// The replication settings of a server that was told nothing.
pub open spec fn default_replication() -> ReplicationModel {
    ReplicationModel {
        role: DEFAULT_ROLE@,
        master_replid: Some(DEFAULT_MASTER_REPLID@),
        master_repl_offset: Some(0),
        replication_of_host: None,
        replication_of_port: None,
    }
}

pub open spec fn key_self_host() -> Seq<u8> {
    encode_utf8("INFO:SELF_HOST"@)
}

pub open spec fn key_self_port() -> Seq<u8> {
    encode_utf8("INFO:SELF_PORT"@)
}

pub open spec fn key_role() -> Seq<u8> {
    encode_utf8("INFO:REPLICATION:ROLE"@)
}

pub open spec fn key_of_host() -> Seq<u8> {
    encode_utf8("INFO:REPLICATION:REPLICATION_OF_HOST"@)
}

pub open spec fn key_of_port() -> Seq<u8> {
    encode_utf8("INFO:REPLICATION:REPLICATION_OF_PORT"@)
}

/// The store after `info` is written into it at `now`.
pub open spec fn written(m: Map<Seq<u8>, EntryModel>, info: InfoModel, now: u64) -> Map<
    Seq<u8>,
    EntryModel,
> {
    let m1 = after_set(m, key_self_host(), encode_utf8(info.self_host), DEFAULT_EXPIRY, now);
    let m2 = after_set(
        m1,
        key_self_port(),
        decimal_digits(info.self_port as nat),
        DEFAULT_EXPIRY,
        now,
    );
    let m3 = after_set(m2, key_role(), encode_utf8(info.replication.role), DEFAULT_EXPIRY, now);
    let m4 = match info.replication.replication_of_host {
        Some(h) => after_set(m3, key_of_host(), encode_utf8(h), DEFAULT_EXPIRY, now),
        None => m3,
    };
    match info.replication.replication_of_port {
        Some(p) => after_set(m4, key_of_port(), decimal_digits(p as nat), DEFAULT_EXPIRY, now),
        None => m4,
    }
}

/// A stored text: absent, or its characters; `None` when it is not UTF-8.
pub open spec fn text_read(m: Map<Seq<u8>, EntryModel>, key: Seq<u8>, now: u64) -> Option<
    Option<Seq<char>>,
> {
    match read_result(m, key, now) {
        None => Some(None),
        Some(b) => if valid_utf8(b) {
            Some(Some(decode_utf8(b)))
        } else {
            None
        },
    }
}

/// A stored port: absent, or its value; `None` when it is not a port number.
pub open spec fn port_read(m: Map<Seq<u8>, EntryModel>, key: Seq<u8>, now: u64) -> Option<
    Option<u16>,
> {
    match read_result(m, key, now) {
        None => Some(None),
        Some(b) => match u16_of(b) {
            Some(p) => Some(Some(p)),
            None => None,
        },
    }
}

/// The information read from the store at `now`: each missing field takes
/// its default, a leader has the fixed replication id and offset zero.
pub open spec fn info_read(m: Map<Seq<u8>, EntryModel>, now: u64) -> Option<InfoModel> {
    let host = text_read(m, key_self_host(), now);
    let port = port_read(m, key_self_port(), now);
    let role = text_read(m, key_role(), now);
    let of_host = text_read(m, key_of_host(), now);
    let of_port = port_read(m, key_of_port(), now);
    if host is None || port is None || role is None || of_host is None || of_port is None {
        None
    } else {
        let role_v = match role->Some_0 {
            Some(r) => r,
            None => DEFAULT_ROLE@,
        };
        let leader = role_v == leader_role();
        Some(
            InfoModel {
                self_host: match host->Some_0 {
                    Some(h) => h,
                    None => DEFAULT_HOST@,
                },
                self_port: match port->Some_0 {
                    Some(p) => p,
                    None => DEFAULT_PORT,
                },
                replication: ReplicationModel {
                    role: role_v,
                    master_replid: if leader {
                        Some(DEFAULT_MASTER_REPLID@)
                    } else {
                        None
                    },
                    master_repl_offset: if leader {
                        Some(0)
                    } else {
                        None
                    },
                    replication_of_host: of_host->Some_0,
                    replication_of_port: of_port->Some_0,
                },
            },
        )
    }
}

fn read_text(store: &Store, key: &str, now: u64) -> (r: Result<Option<String>, InfoError>)
    requires
        store.wf(),
    ensures
        text_read(store@, encode_utf8(key@), now) is None <==> r is Err,
        r is Ok ==> opt_text(r->Ok_0) == text_read(store@, encode_utf8(key@), now)->Some_0,
{
    let k = utf8_bytes(key);
    match store.peek(k.as_slice(), now) {
        None => Ok(None),
        Some(b) => match string_from_utf8(b) {
            Some(s) => Ok(Some(s)),
            None => Err(InfoError::InvalidField),
        },
    }
}

fn read_port(store: &Store, key: &str, now: u64) -> (r: Result<Option<u16>, InfoError>)
    requires
        store.wf(),
    ensures
        port_read(store@, encode_utf8(key@), now) is None <==> r is Err,
        r is Ok ==> r->Ok_0 == port_read(store@, encode_utf8(key@), now)->Some_0,
{
    let k = utf8_bytes(key);
    match store.peek(k.as_slice(), now) {
        None => Ok(None),
        Some(b) => match parse_u16(b.as_slice()) {
            Some(p) => Ok(Some(p)),
            None => Err(InfoError::InvalidField),
        },
    }
}

impl Clone for Replication {
    fn clone(&self) -> (r: Replication)
        ensures
            r@ == self@,
    {
        Replication {
            role: self.role.clone(),
            master_replid: clone_opt_text(&self.master_replid),
            master_repl_offset: self.master_repl_offset,
            replication_of_host: clone_opt_text(&self.replication_of_host),
            replication_of_port: self.replication_of_port,
        }
    }
}

fn clone_opt_text(o: &Option<String>) -> (r: Option<String>)
    ensures
        opt_text(r) == opt_text(*o),
{
    match o {
        Some(s) => Some(s.clone()),
        None => None,
    }
}

impl Clone for Info {
    fn clone(&self) -> (r: Info)
        ensures
            r@ == self@,
    {
        Info {
            self_host: self.self_host.clone(),
            self_port: self.self_port,
            replication: self.replication.clone(),
        }
    }
}

impl PartialEq for Replication {
    fn eq(&self, other: &Replication) -> (r: bool) {
        text_equal(self.role.as_str(), other.role.as_str()) && opt_text_equal(
            &self.master_replid,
            &other.master_replid,
        ) && self.master_repl_offset == other.master_repl_offset && opt_text_equal(
            &self.replication_of_host,
            &other.replication_of_host,
        ) && self.replication_of_port == other.replication_of_port
    }
}

impl vstd::std_specs::cmp::PartialEqSpecImpl for Replication {
    open spec fn obeys_eq_spec() -> bool {
        true
    }

    open spec fn eq_spec(&self, other: &Replication) -> bool {
        self@ == other@
    }
}

impl PartialEq for Info {
    fn eq(&self, other: &Info) -> (r: bool) {
        text_equal(self.self_host.as_str(), other.self_host.as_str()) && self.self_port
            == other.self_port && self.replication.eq(&other.replication)
    }
}

impl vstd::std_specs::cmp::PartialEqSpecImpl for Info {
    open spec fn obeys_eq_spec() -> bool {
        true
    }

    open spec fn eq_spec(&self, other: &Info) -> bool {
        self@ == other@
    }
}

impl Default for Replication {
    fn default() -> (r: Replication)
        ensures
            r@ == default_replication(),
    {
        Replication {
            role: DEFAULT_ROLE.to_owned(),
            master_replid: Some(DEFAULT_MASTER_REPLID.to_owned()),
            master_repl_offset: Some(0),
            replication_of_host: None,
            replication_of_port: None,
        }
    }
}

impl Default for Info {
    fn default() -> (r: Info)
        ensures
            r@ == (InfoModel {
                self_host: DEFAULT_HOST@,
                self_port: DEFAULT_PORT,
                replication: default_replication(),
            }),
    {
        Info {
            self_host: DEFAULT_HOST.to_owned(),
            self_port: DEFAULT_PORT,
            replication: Replication::default(),
        }
    }
}

impl Replication {
    /// Whether this server follows a leader.
    pub fn is_replica(&self) -> (r: bool)
        ensures
            r == (self.role@ == follower_role()),
    {
        text_equal(self.role.as_str(), "slave")
    }

    /// The `host:port` address of the leader, when both are known.
    pub fn master_address(&self) -> (r: Option<String>)
        ensures
            r is Some <==> (self.replication_of_host is Some && self.replication_of_port is Some),
            r is Some ==> r->Some_0@ == self.replication_of_host->Some_0@ + ":"@
                + crate::text::ascii_chars(decimal_digits(self.replication_of_port->Some_0 as nat)),
    {
        match (&self.replication_of_host, self.replication_of_port) {
            (Some(host), Some(port)) => Some(join_address(host, port)),
            _ => None,
        }
    }
}

/// `host:port`.
fn join_address(host: &String, port: u16) -> (r: String)
    ensures
        r@ == host@ + ":"@ + crate::text::ascii_chars(decimal_digits(port as nat)),
{
    let mut s = host.clone();
    s.append(":");
    let p = decimal_string(port as u64);
    s.append(p.as_str());
    s
}

impl Info {
    pub fn new(self_host: String, self_port: u16, replication: Replication) -> (r: Info)
        ensures
            r@ == (InfoModel { self_host: self_host@, self_port, replication: replication@ }),
    {
        Info { self_host, self_port, replication }
    }

    /// The `host:port` address to listen on.
    pub fn bind_address(&self) -> (r: String)
        ensures
            r@ == self.self_host@ + ":"@ + crate::text::ascii_chars(
                decimal_digits(self.self_port as nat),
            ),
    {
        join_address(&self.self_host, self.self_port)
    }

    pub fn builder() -> (r: InfoBuilder)
        ensures
            r.self_host is None && r.self_port is None && r.replication_role is None
                && r.replication_of_host is None && r.replication_of_port is None
                && r.master_replid is None && r.master_repl_offset is None,
    {
        InfoBuilder::default()
    }

    /// Whether this server follows a leader.
    pub fn is_replica(&self) -> (r: bool)
        ensures
            r == (self.replication.role@ == follower_role()),
    {
        self.replication.is_replica()
    }

    /// Reads the information kept in the store at `now`.
    pub fn from_store(store: &Store, now: u64) -> (r: Result<Info, InfoError>)
        requires
            store.wf(),
        ensures
            r is Ok <==> info_read(store@, now) is Some,
            r is Ok ==> r->Ok_0@ == info_read(store@, now)->Some_0,
    {
        let host = read_text(store, "INFO:SELF_HOST", now);
        let port = read_port(store, "INFO:SELF_PORT", now);
        let role = read_text(store, "INFO:REPLICATION:ROLE", now);
        let of_host = read_text(store, "INFO:REPLICATION:REPLICATION_OF_HOST", now);
        let of_port = read_port(store, "INFO:REPLICATION:REPLICATION_OF_PORT", now);
        let (host, port, role, of_host, of_port) = match (host, port, role, of_host, of_port) {
            (Ok(a), Ok(b), Ok(c), Ok(d), Ok(e)) => (a, b, c, d, e),
            _ => return Err(InfoError::InvalidField),
        };
        let role = match role {
            Some(r) => r,
            None => DEFAULT_ROLE.to_owned(),
        };
        let leader = text_equal(role.as_str(), "master");
        Ok(
            Info {
                self_host: match host {
                    Some(h) => h,
                    None => DEFAULT_HOST.to_owned(),
                },
                self_port: match port {
                    Some(p) => p,
                    None => DEFAULT_PORT,
                },
                replication: Replication {
                    role,
                    master_replid: if leader {
                        Some(DEFAULT_MASTER_REPLID.to_owned())
                    } else {
                        None
                    },
                    master_repl_offset: if leader {
                        Some(0)
                    } else {
                        None
                    },
                    replication_of_host: of_host,
                    replication_of_port: of_port,
                },
            },
        )
    }

    /// Writes this information into the store at `now`, each field under
    /// its reserved key with the default time to live.
    pub fn write(&self, store: &mut Store, now: u64)
        requires
            old(store).wf(),
        ensures
            final(store).wf(),
            final(store)@ == written(old(store)@, self@, now),
    {
        store.set_with_default_expiry(
            utf8_bytes("INFO:SELF_HOST"),
            utf8_bytes(self.self_host.as_str()),
            now,
        );
        store.set_with_default_expiry(
            utf8_bytes("INFO:SELF_PORT"),
            crate::number::decimal(self.self_port as u64),
            now,
        );
        store.set_with_default_expiry(
            utf8_bytes("INFO:REPLICATION:ROLE"),
            utf8_bytes(self.replication.role.as_str()),
            now,
        );
        match &self.replication.replication_of_host {
            Some(h) => {
                store.set_with_default_expiry(
                    utf8_bytes("INFO:REPLICATION:REPLICATION_OF_HOST"),
                    utf8_bytes(h.as_str()),
                    now,
                );
            },
            None => {},
        }
        match self.replication.replication_of_port {
            Some(p) => {
                store.set_with_default_expiry(
                    utf8_bytes("INFO:REPLICATION:REPLICATION_OF_PORT"),
                    crate::number::decimal(p as u64),
                    now,
                );
            },
            None => {},
        }
    }
}

/// Gathers the fields of an `Info`; those not given take their defaults.
pub struct InfoBuilder {
    pub self_host: Option<String>,
    pub self_port: Option<u16>,
    pub replication_role: Option<String>,
    pub replication_of_host: Option<String>,
    pub replication_of_port: Option<u16>,
    pub master_replid: Option<String>,
    pub master_repl_offset: Option<u64>,
}

impl Default for InfoBuilder {
    fn default() -> (r: InfoBuilder)
        ensures
            r.self_host is None && r.self_port is None && r.replication_role is None
                && r.replication_of_host is None && r.replication_of_port is None
                && r.master_replid is None && r.master_repl_offset is None,
    {
        InfoBuilder {
            self_host: None,
            self_port: None,
            replication_role: None,
            replication_of_host: None,
            replication_of_port: None,
            master_replid: None,
            master_repl_offset: None,
        }
    }
}

impl InfoBuilder {
    pub fn self_host(self, self_host: Option<String>) -> (r: InfoBuilder)
        ensures
            opt_text(r.self_host) == (if self_host is Some {
                opt_text(self_host)
            } else {
                opt_text(self.self_host)
            }),
            r.self_port == self.self_port,
            opt_text(r.replication_role) == opt_text(self.replication_role),
            opt_text(r.replication_of_host) == opt_text(self.replication_of_host),
            r.replication_of_port == self.replication_of_port,
            opt_text(r.master_replid) == opt_text(self.master_replid),
            r.master_repl_offset == self.master_repl_offset,
    {
        let mut b = self;
        if let Some(host) = self_host {
            b.self_host = Some(host);
        }
        b
    }

    pub fn self_port(self, self_port: Option<u16>) -> (r: InfoBuilder)
        ensures
            r.self_port == (if self_port is Some {
                self_port
            } else {
                self.self_port
            }),
            opt_text(r.self_host) == opt_text(self.self_host),
            opt_text(r.replication_role) == opt_text(self.replication_role),
            opt_text(r.replication_of_host) == opt_text(self.replication_of_host),
            r.replication_of_port == self.replication_of_port,
            opt_text(r.master_replid) == opt_text(self.master_replid),
            r.master_repl_offset == self.master_repl_offset,
    {
        let mut b = self;
        if let Some(port) = self_port {
            b.self_port = Some(port);
        }
        b
    }

    pub fn replication_role(self, replication_role: Option<String>) -> (r: InfoBuilder)
        ensures
            opt_text(r.replication_role) == (if replication_role is Some {
                opt_text(replication_role)
            } else {
                opt_text(self.replication_role)
            }),
            opt_text(r.self_host) == opt_text(self.self_host),
            r.self_port == self.self_port,
            opt_text(r.replication_of_host) == opt_text(self.replication_of_host),
            r.replication_of_port == self.replication_of_port,
            opt_text(r.master_replid) == opt_text(self.master_replid),
            r.master_repl_offset == self.master_repl_offset,
    {
        let mut b = self;
        if let Some(role) = replication_role {
            b.replication_role = Some(role);
        }
        b
    }

    pub fn replication_of_host(self, replication_of_host: Option<String>) -> (r: InfoBuilder)
        ensures
            opt_text(r.replication_of_host) == (if replication_of_host is Some {
                opt_text(replication_of_host)
            } else {
                opt_text(self.replication_of_host)
            }),
            opt_text(r.self_host) == opt_text(self.self_host),
            r.self_port == self.self_port,
            opt_text(r.replication_role) == opt_text(self.replication_role),
            r.replication_of_port == self.replication_of_port,
            opt_text(r.master_replid) == opt_text(self.master_replid),
            r.master_repl_offset == self.master_repl_offset,
    {
        let mut b = self;
        if let Some(host) = replication_of_host {
            b.replication_of_host = Some(host);
        }
        b
    }

    pub fn replication_of_port(self, replication_of_port: Option<u16>) -> (r: InfoBuilder)
        ensures
            r.replication_of_port == (if replication_of_port is Some {
                replication_of_port
            } else {
                self.replication_of_port
            }),
            opt_text(r.self_host) == opt_text(self.self_host),
            r.self_port == self.self_port,
            opt_text(r.replication_role) == opt_text(self.replication_role),
            opt_text(r.replication_of_host) == opt_text(self.replication_of_host),
            opt_text(r.master_replid) == opt_text(self.master_replid),
            r.master_repl_offset == self.master_repl_offset,
    {
        let mut b = self;
        if let Some(port) = replication_of_port {
            b.replication_of_port = Some(port);
        }
        b
    }

    pub fn master_replid(self, master_replid: Option<String>) -> (r: InfoBuilder)
        ensures
            opt_text(r.master_replid) == (if master_replid is Some {
                opt_text(master_replid)
            } else {
                opt_text(self.master_replid)
            }),
            opt_text(r.self_host) == opt_text(self.self_host),
            r.self_port == self.self_port,
            opt_text(r.replication_role) == opt_text(self.replication_role),
            opt_text(r.replication_of_host) == opt_text(self.replication_of_host),
            r.replication_of_port == self.replication_of_port,
            r.master_repl_offset == self.master_repl_offset,
    {
        let mut b = self;
        if let Some(id) = master_replid {
            b.master_replid = Some(id);
        }
        b
    }

    pub fn master_repl_offset(self, master_repl_offset: Option<u64>) -> (r: InfoBuilder)
        ensures
            r.master_repl_offset == (if master_repl_offset is Some {
                master_repl_offset
            } else {
                self.master_repl_offset
            }),
            opt_text(r.self_host) == opt_text(self.self_host),
            r.self_port == self.self_port,
            opt_text(r.replication_role) == opt_text(self.replication_role),
            opt_text(r.replication_of_host) == opt_text(self.replication_of_host),
            r.replication_of_port == self.replication_of_port,
            opt_text(r.master_replid) == opt_text(self.master_replid),
    {
        let mut b = self;
        if let Some(offset) = master_repl_offset {
            b.master_repl_offset = Some(offset);
        }
        b
    }

    /// The information gathered; each field not given takes its default.
    pub fn build(self) -> (r: Info)
        ensures
            r.self_host@ == (match self.self_host {
                Some(h) => h@,
                None => DEFAULT_HOST@,
            }),
            r.self_port == (match self.self_port {
                Some(p) => p,
                None => DEFAULT_PORT,
            }),
            r.replication.role@ == (match self.replication_role {
                Some(x) => x@,
                None => DEFAULT_ROLE@,
            }),
            opt_text(r.replication.replication_of_host) == opt_text(self.replication_of_host),
            r.replication.replication_of_port == self.replication_of_port,
            opt_text(r.replication.master_replid) == opt_text(self.master_replid),
            r.replication.master_repl_offset == self.master_repl_offset,
    {
        Info {
            self_host: match self.self_host {
                Some(h) => h,
                None => DEFAULT_HOST.to_owned(),
            },
            self_port: match self.self_port {
                Some(p) => p,
                None => DEFAULT_PORT,
            },
            replication: Replication {
                role: match self.replication_role {
                    Some(x) => x,
                    None => DEFAULT_ROLE.to_owned(),
                },
                master_replid: self.master_replid,
                master_repl_offset: self.master_repl_offset,
                replication_of_host: self.replication_of_host,
                replication_of_port: self.replication_of_port,
            },
        }
    }
}

proof fn lemma_u16_of_decimal(p: u16)
    ensures
        u16_of(decimal_digits(p as nat)) == Some(p),
{
    let d = decimal_digits(p as nat);
    lemma_decimal_digits(p as nat);
    assert(crate::number::is_digit(d[0]));
}

proof fn lemma_keys_distinct()
    ensures
        key_self_host() != key_self_port(),
        key_self_host() != key_role(),
        key_self_host() != key_of_host(),
        key_self_host() != key_of_port(),
        key_self_port() != key_role(),
        key_self_port() != key_of_host(),
        key_self_port() != key_of_port(),
        key_role() != key_of_host(),
        key_role() != key_of_port(),
        key_of_host() != key_of_port(),
{
    reveal_strlit("INFO:SELF_HOST");
    reveal_strlit("INFO:SELF_PORT");
    reveal_strlit("INFO:REPLICATION:ROLE");
    reveal_strlit("INFO:REPLICATION:REPLICATION_OF_HOST");
    reveal_strlit("INFO:REPLICATION:REPLICATION_OF_PORT");
    encode_utf8_decode_utf8("INFO:SELF_HOST"@);
    encode_utf8_decode_utf8("INFO:SELF_PORT"@);
    encode_utf8_decode_utf8("INFO:REPLICATION:ROLE"@);
    encode_utf8_decode_utf8("INFO:REPLICATION:REPLICATION_OF_HOST"@);
    encode_utf8_decode_utf8("INFO:REPLICATION:REPLICATION_OF_PORT"@);
    assert("INFO:SELF_HOST"@[10] != "INFO:SELF_PORT"@[10]);
    assert("INFO:REPLICATION:REPLICATION_OF_HOST"@[32] != "INFO:REPLICATION:REPLICATION_OF_PORT"@[32]);
}

/// Information written into the store reads back the same before its entries
/// expire, when its replication id and offset are the ones a leader has (and
/// a follower has none), and when the store holds no leader address that the
/// information leaves out.
pub proof fn law_info_round_trip(m: Map<Seq<u8>, EntryModel>, info: InfoModel, now: u64, later: u64)
    requires
        later < expiry_at(now, DEFAULT_EXPIRY),
        info.replication.master_replid == (if info.replication.role == leader_role() {
            Some(DEFAULT_MASTER_REPLID@)
        } else {
            None
        }),
        info.replication.master_repl_offset == (if info.replication.role == leader_role() {
            Some(0u64)
        } else {
            None
        }),
        info.replication.replication_of_host is None ==> read_result(m, key_of_host(), later) is None,
        info.replication.replication_of_port is None ==> read_result(m, key_of_port(), later) is None,
    ensures
        info_read(written(m, info, now), later) == Some(info),
{
    lemma_keys_distinct();
    lemma_u16_of_decimal(info.self_port);
    encode_utf8_valid_utf8(info.self_host);
    encode_utf8_decode_utf8(info.self_host);
    encode_utf8_valid_utf8(info.replication.role);
    encode_utf8_decode_utf8(info.replication.role);
    match info.replication.replication_of_host {
        Some(h) => {
            encode_utf8_valid_utf8(h);
            encode_utf8_decode_utf8(h);
        },
        None => {},
    }
    match info.replication.replication_of_port {
        Some(p) => lemma_u16_of_decimal(p),
        None => {},
    }
    let w = written(m, info, now);
    assert(text_read(w, key_self_host(), later) == Some(Some(info.self_host)));
    assert(port_read(w, key_self_port(), later) == Some(Some(info.self_port)));
    assert(text_read(w, key_role(), later) == Some(Some(info.replication.role)));
}

} // verus!
