//! The command-line options: `--port <port>` and `--replicaof <host> <port>`.
use crate::info::{
    default_replication, follower_role, Info, InfoModel, ReplicationModel, DEFAULT_HOST,
    DEFAULT_PORT,
};
use crate::number::{parse_u16, u16_of};
use crate::text::text_equal;
use vstd::prelude::*;
use vstd::utf8::encode_utf8;

verus! {

broadcast use vstd::std_specs::vec::group_vec_axioms, vstd::seq::group_seq_axioms;

#[derive(Debug)]
pub struct RedisArgs {
    pub port: Option<u16>,
    pub replicaof: Option<(String, u16)>,
}

/// The options could not be read.
#[derive(Debug)]
pub enum ArgsError {
    /// An option misses its value.
    Missing(String),
    /// A port is not a number from 0 to 65535.
    InvalidPort(String),
}

pub struct ArgsModel {
    pub port: Option<u16>,
    pub replicaof: Option<(Seq<char>, u16)>,
}

impl View for RedisArgs {
    type V = ArgsModel;

    open spec fn view(&self) -> ArgsModel {
        ArgsModel {
            port: self.port,
            replicaof: match self.replicaof {
                Some((h, p)) => Some((h@, p)),
                None => None,
            },
        }
    }
}

/// A port given as text.
pub open spec fn port_of_text(s: Seq<char>) -> Option<u16> {
    u16_of(encode_utf8(s))
}

/// The options from the `i`-th argument on, with what was read before;
/// `None` when an option misses its value or a port is not valid. Other
/// arguments are passed over.
pub open spec fn args_from(args: Seq<Seq<char>>, i: int, acc: ArgsModel) -> Option<ArgsModel>
    decreases args.len() - i,
{
    if i < 0 || i >= args.len() {
        Some(acc)
    } else if args[i] == "--port"@ {
        if i + 1 >= args.len() {
            None
        } else {
            match port_of_text(args[i + 1]) {
                Some(p) => args_from(args, i + 2, ArgsModel { port: Some(p), ..acc }),
                None => None,
            }
        }
    } else if args[i] == "--replicaof"@ {
        if i + 2 >= args.len() {
            None
        } else {
            match port_of_text(args[i + 2]) {
                Some(p) => args_from(
                    args,
                    i + 3,
                    ArgsModel { replicaof: Some((args[i + 1], p)), ..acc },
                ),
                None => None,
            }
        }
    } else {
        args_from(args, i + 1, acc)
    }
}

pub open spec fn texts(v: Seq<String>) -> Seq<Seq<char>> {
    v.map_values(|s: String| s@)
}

impl PartialEq for RedisArgs {
    fn eq(&self, other: &RedisArgs) -> (r: bool) {
        self.port == other.port && match (&self.replicaof, &other.replicaof) {
            (Some((h1, p1)), Some((h2, p2))) => text_equal(h1.as_str(), h2.as_str()) && *p1 == *p2,
            (None, None) => true,
            _ => false,
        }
    }
}

impl vstd::std_specs::cmp::PartialEqSpecImpl for RedisArgs {
    open spec fn obeys_eq_spec() -> bool {
        true
    }

    open spec fn eq_spec(&self, other: &RedisArgs) -> bool {
        self@ == other@
    }
}

impl Default for RedisArgs {
    fn default() -> (r: RedisArgs)
        ensures
            r@ == (ArgsModel { port: None, replicaof: None }),
    {
        RedisArgs { port: None, replicaof: None }
    }
}

impl RedisArgs {
    /// Reads the options from the program's arguments.
    pub fn parse(args: Vec<String>) -> (r: Result<RedisArgs, ArgsError>)
        ensures
            r is Ok <==> args_from(texts(args@), 0, ArgsModel { port: None, replicaof: None }) is Some,
            r is Ok ==> r->Ok_0@ == args_from(
                texts(args@),
                0,
                ArgsModel { port: None, replicaof: None },
            )->Some_0,
    {
        let ghost t = texts(args@);
        let mut port: Option<u16> = None;
        let mut replicaof: Option<(String, u16)> = None;
        let mut i: usize = 0;
        while i < args.len()
            invariant
                t == texts(args@),
                0 <= i <= args@.len(),
                args_from(t, 0, ArgsModel { port: None, replicaof: None }) == args_from(
                    t,
                    i as int,
                    (RedisArgs { port, replicaof })@,
                ),
            decreases args@.len() - i,
        {
            if text_equal(args[i].as_str(), "--port") {
                if i + 1 >= args.len() {
                    return Err(ArgsError::Missing("port expected".to_owned()));
                }
                match parse_u16(args[i + 1].as_str().as_bytes()) {
                    Some(p) => {
                        port = Some(p);
                    },
                    None => {
                        return Err(ArgsError::InvalidPort("Invalid port".to_owned()));
                    },
                }
                i = i + 2;
            } else if text_equal(args[i].as_str(), "--replicaof") {
                if args.len() - i <= 2 {
                    return Err(ArgsError::Missing("replicaof host and port expected".to_owned()));
                }
                match parse_u16(args[i + 2].as_str().as_bytes()) {
                    Some(p) => {
                        replicaof = Some((args[i + 1].clone(), p));
                    },
                    None => {
                        return Err(ArgsError::InvalidPort("Invalid replicaof port".to_owned()));
                    },
                }
                i = i + 3;
            } else {
                i = i + 1;
            }
        }
        Ok(RedisArgs { port, replicaof })
    }

    /// The server information these options give: a follower of the given
    /// leader, or a leader with the fixed replication id.
    pub fn to_info(&self) -> (r: Info)
        ensures
            r@ == (InfoModel {
                self_host: DEFAULT_HOST@,
                self_port: match self.port {
                    Some(p) => p,
                    None => DEFAULT_PORT,
                },
                replication: match self.replicaof {
                    Some((h, p)) => ReplicationModel {
                        role: follower_role(),
                        master_replid: None,
                        master_repl_offset: None,
                        replication_of_host: Some(h@),
                        replication_of_port: Some(p),
                    },
                    None => default_replication(),
                },
            }),
    {
        let mut info = Info::default();
        match self.port {
            Some(p) => {
                info.self_port = p;
            },
            None => {},
        }
        match &self.replicaof {
            Some((host, port)) => {
                info.replication.role = "slave".to_owned();
                info.replication.master_replid = None;
                info.replication.master_repl_offset = None;
                info.replication.replication_of_host = Some(host.clone());
                info.replication.replication_of_port = Some(*port);
            },
            None => {},
        }
        info
    }
}

} // verus!
