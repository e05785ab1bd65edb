//! The options as the command line gives them.
use crate::info::{default_replication, follower_role, Info, ReplicationModel, DEFAULT_HOST};
use crate::number::parse_u16;
use crate::redis_args::port_of_text;
use vstd::prelude::*;

verus! {

broadcast use vstd::std_specs::vec::group_vec_axioms, vstd::seq::group_seq_axioms;

pub struct Cli {
    pub port: u16,
    /// The leader's host and port, when this server follows one.
    pub replicaof: Option<Vec<String>>,
}

impl Cli {
    /// The server information these options give. With a leader given (host
    /// first, port second) the server follows it; a port that is not a
    /// number is left out.
    pub fn to_info(&self) -> (r: Info)
        ensures
            r.self_host@ == DEFAULT_HOST@,
            r.self_port == self.port,
            self.replicaof is None || self.replicaof->Some_0@.len() == 0 ==> r@.replication
                == default_replication(),
            self.replicaof is Some && self.replicaof->Some_0@.len() >= 1 ==> ({
                let v = self.replicaof->Some_0@;
                r@.replication == ReplicationModel {
                    role: follower_role(),
                    master_replid: None,
                    master_repl_offset: None,
                    replication_of_host: Some(v[0]@),
                    replication_of_port: if v.len() >= 2 {
                        port_of_text(v[1]@)
                    } else {
                        None
                    },
                }
            }),
    {
        let mut info = Info::default();
        info.self_port = self.port;
        match &self.replicaof {
            Some(v) => {
                if v.len() >= 1 {
                    info.replication.role = "slave".to_owned();
                    info.replication.master_replid = None;
                    info.replication.master_repl_offset = None;
                    info.replication.replication_of_host = Some(v[0].clone());
                    info.replication.replication_of_port = if v.len() >= 2 {
                        parse_u16(v[1].as_str().as_bytes())
                    } else {
                        None
                    };
                }
            },
            None => {},
        }
        info
    }
}

} // verus!
