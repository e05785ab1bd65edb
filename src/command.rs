//! Commands: how an array frame is read as a command, and what applying a
//! command does to the store and answers.
use crate::frame::{lemma_array_model, models, parse_frame, Frame, FrameModel};
use crate::info::{follower_role, info_read, leader_role, InfoModel};
use crate::number::{decimal_digits, decimal_of, parse_u16, read_decimal, u16_of};
use crate::store::{
    after_read, after_set, law_expired_read, law_set_then_get, read_result, EntryModel,
    Store, DEFAULT_EXPIRY,
};
use crate::text::{opt_text, text_equal, utf8_bytes};
use vstd::prelude::*;
use vstd::utf8::{decode_utf8, encode_utf8, valid_utf8};

verus! {

broadcast use vstd::std_specs::vec::group_vec_axioms, vstd::seq::group_seq_axioms,
    vstd::slice::group_slice_axioms;

/// What `str::to_lowercase` gives for a text.
pub uninterp spec fn lower_of(s: Seq<char>) -> Seq<char>;

/// Relies on `str::to_lowercase`, whose result depends on the characters alone.
#[verifier::external_body]
fn lowercase(s: &str) -> (r: String)
    ensures
        r@ == lower_of(s@),
{
    s.to_lowercase()
}

/// Answers `PONG`, or the message given.
pub struct Ping {
    pub msg: Option<Vec<u8>>,
}

pub struct Echo {
    pub msg: Vec<u8>,
}

pub struct Get {
    pub key: Vec<u8>,
}

/// Writes a value, with a time to live in milliseconds when one is given.
pub struct SetCmd {
    pub key: Vec<u8>,
    pub value: Vec<u8>,
    pub expiry: Option<u64>,
}

/// Answers the replication section; the section asked for is not looked at.
pub struct Info {
    pub kind: Vec<u8>,
}

/// What a follower tells its leader during the handshake.
pub struct ReplConf {
    pub listening_port: Option<u16>,
    pub capabilities: Vec<String>,
    pub getack_option: Option<String>,
}

/// A follower asks for a full copy.
pub struct Psync {
    pub master_replid: String,
    pub master_repl_offset: Option<u64>,
}

pub struct Unknown {
    pub command_name: String,
}

pub enum Command {
    Ping(Ping),
    Echo(Echo),
    Get(Get),
    SetCmd(SetCmd),
    Info(Info),
    ReplConf(ReplConf),
    Psync(Psync),
    Unknown(Unknown),
}

/// A command that could not be read, or that failed; answered as `-ERR`.
#[derive(Debug)]
pub enum CommandError {
    Invalid(String),
}

pub enum CommandModel {
    Ping(Option<Seq<u8>>),
    Echo(Seq<u8>),
    Get(Seq<u8>),
    SetCmd(Seq<u8>, Seq<u8>, Option<u64>),
    Info(Seq<u8>),
    ReplConf(Option<u16>, Seq<Seq<char>>, Option<Seq<char>>),
    Psync(Seq<char>),
    Unknown(Seq<char>),
}

pub open spec fn opt_bytes(o: Option<Vec<u8>>) -> Option<Seq<u8>> {
    match o {
        Some(b) => Some(b@),
        None => None,
    }
}

impl View for Command {
    type V = CommandModel;

    open spec fn view(&self) -> CommandModel {
        match self {
            Command::Ping(c) => CommandModel::Ping(opt_bytes(c.msg)),
            Command::Echo(c) => CommandModel::Echo(c.msg@),
            Command::Get(c) => CommandModel::Get(c.key@),
            Command::SetCmd(c) => CommandModel::SetCmd(c.key@, c.value@, c.expiry),
            Command::Info(c) => CommandModel::Info(c.kind@),
            Command::ReplConf(c) => CommandModel::ReplConf(
                c.listening_port,
                c.capabilities@.map_values(|s: String| s@),
                opt_text(c.getack_option),
            ),
            Command::Psync(c) => CommandModel::Psync(c.master_replid@),
            Command::Unknown(c) => CommandModel::Unknown(c.command_name@),
        }
    }
}

/// An argument read as bytes: a simple or a bulk frame.
pub open spec fn arg_bytes(m: FrameModel) -> Option<Seq<u8>> {
    match m {
        FrameModel::Simple(c) => Some(encode_utf8(c)),
        FrameModel::Bulk(b) => Some(b),
        _ => None,
    }
}

/// An argument read as text: a simple frame, or a bulk frame that is UTF-8.
pub open spec fn arg_text(m: FrameModel) -> Option<Seq<char>> {
    match m {
        FrameModel::Simple(c) => Some(c),
        FrameModel::Bulk(b) => if valid_utf8(b) {
            Some(decode_utf8(b))
        } else {
            None
        },
        _ => None,
    }
}

/// An argument read as a number: an integer frame, or a simple or bulk frame
/// that holds an unsigned decimal number, digits only.
pub open spec fn arg_int(m: FrameModel) -> Option<u64> {
    match m {
        FrameModel::Integer(n) => Some(n),
        FrameModel::Simple(c) => decimal_of(encode_utf8(c)),
        FrameModel::Bulk(b) => decimal_of(b),
        _ => None,
    }
}

/// The name of a command: its first element, a bulk frame that is UTF-8.
pub open spec fn name_text(m: FrameModel) -> Option<Seq<char>> {
    match m {
        FrameModel::Bulk(b) => if valid_utf8(b) {
            Some(decode_utf8(b))
        } else {
            None
        },
        _ => None,
    }
}

/// One option of `REPLCONF`, its name already in lower case, with its value:
/// the listening port, a capability, or a `GETACK`; `None` for any other
/// name or a port that is not valid.
pub open spec fn replconf_option(conf: CommandModel, option: Seq<char>, value: Seq<char>) -> Option<
    CommandModel,
> {
    match conf {
        CommandModel::ReplConf(port, caps, getack) => if option == "listening-port"@ {
            match u16_of(encode_utf8(value)) {
                Some(p) => Some(CommandModel::ReplConf(Some(p), caps, getack)),
                None => None,
            }
        } else if option == "capa"@ {
            Some(CommandModel::ReplConf(port, caps.push(value), getack))
        } else if option == "getack"@ {
            Some(CommandModel::ReplConf(port, caps, Some(value)))
        } else {
            None
        },
        _ => None,
    }
}

/// The option of `SET` after the key and the value, its name already in lower
/// case: `px` with a time to live in milliseconds.
pub open spec fn set_option(key: Seq<u8>, value: Seq<u8>, option: Seq<char>, amount: FrameModel) -> Option<
    CommandModel,
> {
    if option == "px"@ && arg_int(amount) is Some {
        Some(CommandModel::SetCmd(key, value, arg_int(amount)))
    } else {
        None
    }
}

/// The options of `REPLCONF` from the `i`-th argument on, in pairs; the
/// values read so far are given.
pub open spec fn replconf_from(
    args: Seq<FrameModel>,
    i: int,
    port: Option<u16>,
    caps: Seq<Seq<char>>,
    getack: Option<Seq<char>>,
) -> Option<CommandModel>
    decreases args.len() - i,
{
    if i < 0 || i >= args.len() {
        Some(CommandModel::ReplConf(port, caps, getack))
    } else if i + 1 >= args.len() {
        None
    } else {
        match (arg_text(args[i]), arg_text(args[i + 1])) {
            (Some(o), Some(v)) => match replconf_option(
                CommandModel::ReplConf(port, caps, getack),
                lower_of(o),
                v,
            ) {
                Some(CommandModel::ReplConf(p2, c2, g2)) => replconf_from(args, i + 2, p2, c2, g2),
                _ => None,
            },
            _ => None,
        }
    }
}

/// `PSYNC` takes a replication id and an offset.
pub open spec fn psync_of(args: Seq<FrameModel>) -> Option<CommandModel> {
    if args.len() == 2 && arg_text(args[0]) is Some && arg_text(args[1]) is Some {
        Some(CommandModel::Psync(arg_text(args[0])->Some_0))
    } else {
        None
    }
}

/// The command named `name` (already in lower case) with arguments `args`;
/// `None` when the arguments do not fit the command.
pub open spec fn command_of(name: Seq<char>, args: Seq<FrameModel>) -> Option<CommandModel> {
    if name == "ping"@ {
        if args.len() == 0 {
            Some(CommandModel::Ping(None))
        } else if args.len() == 1 && arg_bytes(args[0]) is Some {
            Some(CommandModel::Ping(arg_bytes(args[0])))
        } else {
            None
        }
    } else if name == "echo"@ {
        if args.len() == 1 && arg_bytes(args[0]) is Some {
            Some(CommandModel::Echo(arg_bytes(args[0])->Some_0))
        } else {
            None
        }
    } else if name == "get"@ {
        if args.len() == 1 && arg_bytes(args[0]) is Some {
            Some(CommandModel::Get(arg_bytes(args[0])->Some_0))
        } else {
            None
        }
    } else if name == "set"@ {
        if args.len() < 2 || arg_bytes(args[0]) is None || arg_bytes(args[1]) is None {
            None
        } else if args.len() == 2 {
            Some(CommandModel::SetCmd(arg_bytes(args[0])->Some_0, arg_bytes(args[1])->Some_0, None))
        } else if args.len() == 4 && arg_text(args[2]) is Some {
            set_option(
                arg_bytes(args[0])->Some_0,
                arg_bytes(args[1])->Some_0,
                lower_of(arg_text(args[2])->Some_0),
                args[3],
            )
        } else {
            None
        }
    } else if name == "info"@ {
        if args.len() == 0 {
            Some(CommandModel::Info(Seq::empty()))
        } else if args.len() == 1 && arg_bytes(args[0]) is Some {
            Some(CommandModel::Info(arg_bytes(args[0])->Some_0))
        } else {
            None
        }
    } else if name == "replconf"@ {
        replconf_from(args, 0, None, Seq::empty(), None)
    } else if name == "psync"@ {
        psync_of(args)
    } else {
        Some(CommandModel::Unknown(name))
    }
}

/// The command an array frame holds: its first element, a bulk frame,
/// names it, in any case.
pub open spec fn command_from(m: FrameModel) -> Option<CommandModel> {
    match m {
        FrameModel::Array(items) => if items.len() >= 1 && name_text(items[0]) is Some {
            command_of(lower_of(name_text(items[0])->Some_0), items.drop_first())
        } else {
            None
        },
        _ => None,
    }
}

fn frame_bytes(f: &Frame) -> (r: Option<Vec<u8>>)
    ensures
        opt_bytes(r) == arg_bytes(f@),
{
    match f {
        Frame::Simple(s) => Some(utf8_bytes(s.as_str())),
        Frame::Bulk(b) => Some(b.clone()),
        _ => None,
    }
}

fn frame_text(f: &Frame) -> (r: Option<String>)
    ensures
        opt_text(r) == arg_text(f@),
{
    match f {
        Frame::Simple(s) => Some(s.clone()),
        Frame::Bulk(b) => crate::frame::string_from_utf8(b.clone()),
        _ => None,
    }
}

fn frame_int(f: &Frame) -> (r: Option<u64>)
    ensures
        r == arg_int(f@),
{
    match f {
        Frame::Integer(n) => Some(*n),
        Frame::Simple(s) => read_decimal(s.as_str().as_bytes()),
        Frame::Bulk(b) => read_decimal(b.as_slice()),
        _ => None,
    }
}

fn invalid(msg: &str) -> (r: CommandError) {
    CommandError::Invalid(msg.to_owned())
}

impl ReplConf {
    /// Reads the options of `REPLCONF`, in pairs.
    pub fn parse_frames(args: &[Frame]) -> (r: Result<ReplConf, CommandError>)
        ensures
            r is Ok <==> replconf_from(models(args@), 0, None, Seq::empty(), None) is Some,
            r is Ok ==> Command::ReplConf(r->Ok_0)@ == replconf_from(
                models(args@),
                0,
                None,
                Seq::empty(),
                None,
            )->Some_0,
    {
        let ghost ms = models(args@);
        let mut conf = ReplConf {
            listening_port: None,
            capabilities: Vec::new(),
            getack_option: None,
        };
        let mut i: usize = 0;
        assert(conf.capabilities@.map_values(|s: String| s@) =~= Seq::<Seq<char>>::empty());
        while i < args.len()
            invariant
                ms == models(args@),
                i % 2 == 0,
                0 <= i <= args@.len() + 1,
                replconf_from(ms, 0, None, Seq::empty(), None) == replconf_from(
                    ms,
                    i as int,
                    conf.listening_port,
                    conf.capabilities@.map_values(|s: String| s@),
                    opt_text(conf.getack_option),
                ),
            decreases args@.len() - i,
        {
            if i + 1 >= args.len() {
                return Err(invalid("expecting a value"));
            }
            let opt = match frame_text(&args[i]) {
                Some(o) => o,
                None => return Err(invalid("expecting listening-port, capa or getack")),
            };
            let value = match frame_text(&args[i + 1]) {
                Some(v) => v,
                None => return Err(invalid("expecting a value")),
            };
            let lo = lowercase(opt.as_str());
            conf = match conf.with_option(lo.as_str(), value) {
                Ok(c) => c,
                Err(e) => return Err(e),
            };
            i = i + 2;
        }
        Ok(conf)
    }

    /// Takes one option, its name already in lower case, with its value.
    pub fn with_option(self, option: &str, value: String) -> (r: Result<ReplConf, CommandError>)
        ensures
            r is Ok <==> replconf_option(Command::ReplConf(self)@, option@, value@) is Some,
            r is Ok ==> Command::ReplConf(r->Ok_0)@ == replconf_option(
                Command::ReplConf(self)@,
                option@,
                value@,
            )->Some_0,
    {
        let mut conf = self;
        if text_equal(option, "listening-port") {
            match parse_u16(value.as_str().as_bytes()) {
                Some(p) => {
                    conf.listening_port = Some(p);
                },
                None => return Err(invalid("expecting port")),
            }
        } else if text_equal(option, "capa") {
            let ghost before = conf.capabilities@.map_values(|s: String| s@);
            let ghost v = value@;
            conf.capabilities.push(value);
            assert(conf.capabilities@.map_values(|s: String| s@) =~= before.push(v));
        } else if text_equal(option, "getack") {
            conf.getack_option = Some(value);
        } else {
            return Err(invalid("expecting listening-port, capa or getack"));
        }
        Ok(conf)
    }
}

impl SetCmd {
    /// Takes the option after the key and the value, its name already in
    /// lower case, with the frame after it.
    pub fn with_option(key: Vec<u8>, value: Vec<u8>, option: &str, amount: &Frame) -> (r: Result<
        SetCmd,
        CommandError,
    >)
        ensures
            r is Ok <==> set_option(key@, value@, option@, amount@) is Some,
            r is Ok ==> Command::SetCmd(r->Ok_0)@ == set_option(key@, value@, option@, amount@)->Some_0,
    {
        if !text_equal(option, "px") {
            return Err(invalid("syntax error"));
        }
        match frame_int(amount) {
            Some(ms) => Ok(SetCmd { key, value, expiry: Some(ms) }),
            None => Err(invalid("value is not an integer or out of range")),
        }
    }
}

impl Psync {
    /// Reads the replication id and the offset (which is not kept).
    pub fn parse_frames(args: &[Frame]) -> (r: Result<Psync, CommandError>)
        ensures
            r is Ok <==> psync_of(models(args@)) is Some,
            r is Ok ==> Command::Psync(r->Ok_0)@ == psync_of(models(args@))->Some_0,
    {
        if args.len() != 2 {
            return Err(invalid("wrong number of arguments for 'psync'"));
        }
        let master_replid = match frame_text(&args[0]) {
            Some(s) => s,
            None => return Err(invalid("expecting a replication id")),
        };
        match frame_text(&args[1]) {
            Some(_) => {},
            None => return Err(invalid("expecting an offset")),
        }
        Ok(Psync { master_replid, master_repl_offset: None })
    }
}

impl Unknown {
    /// A command that is not known, under the name it was given.
    pub fn new(key: String) -> (r: Unknown)
        ensures
            r.command_name@ == key@,
    {
        Unknown { command_name: key }
    }

    pub fn get_name(&self) -> (r: &str)
        ensures
            r@ == self.command_name@,
    {
        self.command_name.as_str()
    }
}

impl Command {
    /// Reads the command named `name` (in lower case) with arguments `args`.
    pub fn from_parts(name: &str, args: &[Frame]) -> (r: Result<Command, CommandError>)
        ensures
            r is Ok <==> command_of(name@, models(args@)) is Some,
            r is Ok ==> r->Ok_0@ == command_of(name@, models(args@))->Some_0,
    {
        let ghost ms = models(args@);
        let n = args.len();
        if text_equal(name, "ping") {
            if n == 0 {
                Ok(Command::Ping(Ping { msg: None }))
            } else if n == 1 {
                match frame_bytes(&args[0]) {
                    Some(b) => Ok(Command::Ping(Ping { msg: Some(b) })),
                    None => Err(invalid("wrong argument for 'ping'")),
                }
            } else {
                Err(invalid("wrong number of arguments for 'ping'"))
            }
        } else if text_equal(name, "echo") {
            if n != 1 {
                return Err(invalid("wrong number of arguments for 'echo'"));
            }
            match frame_bytes(&args[0]) {
                Some(b) => Ok(Command::Echo(Echo { msg: b })),
                None => Err(invalid("wrong argument for 'echo'")),
            }
        } else if text_equal(name, "get") {
            if n != 1 {
                return Err(invalid("wrong number of arguments for 'get'"));
            }
            match frame_bytes(&args[0]) {
                Some(b) => Ok(Command::Get(Get { key: b })),
                None => Err(invalid("wrong argument for 'get'")),
            }
        } else if text_equal(name, "set") {
            if n < 2 {
                return Err(invalid("wrong number of arguments for 'set'"));
            }
            let key = match frame_bytes(&args[0]) {
                Some(b) => b,
                None => return Err(invalid("wrong argument for 'set'")),
            };
            let value = match frame_bytes(&args[1]) {
                Some(b) => b,
                None => return Err(invalid("wrong argument for 'set'")),
            };
            if n == 2 {
                return Ok(Command::SetCmd(SetCmd { key, value, expiry: None }));
            }
            if n != 4 {
                return Err(invalid("syntax error"));
            }
            let opt = match frame_text(&args[2]) {
                Some(o) => o,
                None => return Err(invalid("syntax error")),
            };
            let lo = lowercase(opt.as_str());
            match SetCmd::with_option(key, value, lo.as_str(), &args[3]) {
                Ok(c) => Ok(Command::SetCmd(c)),
                Err(e) => Err(e),
            }
        } else if text_equal(name, "info") {
            if n == 0 {
                Ok(Command::Info(Info { kind: Vec::new() }))
            } else if n == 1 {
                match frame_bytes(&args[0]) {
                    Some(b) => Ok(Command::Info(Info { kind: b })),
                    None => Err(invalid("wrong argument for 'info'")),
                }
            } else {
                Err(invalid("wrong number of arguments for 'info'"))
            }
        } else if text_equal(name, "replconf") {
            match ReplConf::parse_frames(args) {
                Ok(c) => Ok(Command::ReplConf(c)),
                Err(e) => Err(e),
            }
        } else if text_equal(name, "psync") {
            match Psync::parse_frames(args) {
                Ok(c) => Ok(Command::Psync(c)),
                Err(e) => Err(e),
            }
        } else {
            Ok(Command::Unknown(Unknown::new(name.to_owned())))
        }
    }

    /// Reads the command an array frame holds; its name is taken in any case.
    pub fn from_frame(frame: Frame) -> (r: Result<Command, CommandError>)
        ensures
            r is Ok <==> command_from(frame@) is Some,
            r is Ok ==> r->Ok_0@ == command_from(frame@)->Some_0,
    {
        match frame {
            Frame::Array(items) => {
                proof {
                    lemma_array_model(items);
                }
                if items.len() == 0 {
                    return Err(invalid("protocol error; expected a command name"));
                }
                let name = match &items[0] {
                    Frame::Bulk(b) => match crate::frame::string_from_utf8(b.clone()) {
                        Some(s) => s,
                        None => return Err(invalid("protocol error; expected a command name")),
                    },
                    _ => return Err(invalid("protocol error; expected a bulk command name")),
                };
                let lowered = lowercase(name.as_str());
                let args = vstd::slice::slice_subrange(items.as_slice(), 1, items.len());
                assert(models(args@) =~= models(items@).drop_first());
                Command::from_parts(lowered.as_str(), args)
            },
            _ => Err(invalid("protocol error; expected an array frame")),
        }
    }
}

/// What applying a command produced: the frames to answer with, the frame to
/// send on to followers, and whether the peer becomes a follower.
pub struct Outcome {
    pub replies: Vec<Frame>,
    pub replicate: Option<Frame>,
    pub promote: bool,
}

pub struct OutcomeModel {
    pub replies: Seq<FrameModel>,
    pub replicate: Option<FrameModel>,
    pub promote: bool,
    pub store: Map<Seq<u8>, EntryModel>,
}

pub open spec fn opt_frame(o: Option<Frame>) -> Option<FrameModel> {
    match o {
        Some(f) => Some(f@),
        None => None,
    }
}

/// The frame that replays a write on a follower: `set key value`, with
/// `PX ms` when a time to live was given.
pub open spec fn set_frame(key: Seq<u8>, value: Seq<u8>, expiry: Option<u64>) -> FrameModel {
    let base = seq![
        FrameModel::Bulk(encode_utf8("set"@)),
        FrameModel::Bulk(key),
        FrameModel::Bulk(value),
    ];
    match expiry {
        Some(ms) => FrameModel::Array(
            base + seq![
                FrameModel::Bulk(encode_utf8("PX"@)),
                FrameModel::Bulk(decimal_digits(ms as nat)),
            ],
        ),
        None => FrameModel::Array(base),
    }
}

/// The text `INFO` answers with; `None` for a role that is neither.
pub open spec fn info_block(i: InfoModel) -> Option<Seq<u8>> {
    if i.replication.role == leader_role() {
        Some(
            encode_utf8("role:master\r\nmaster_replid:"@) + encode_utf8(
                match i.replication.master_replid {
                    Some(id) => id,
                    None => Seq::empty(),
                },
            ) + encode_utf8("\r\nmaster_repl_offset:"@) + decimal_digits(
                match i.replication.master_repl_offset {
                    Some(o) => o as nat,
                    None => 0,
                },
            ) + encode_utf8("\r\n"@),
        )
    } else if i.replication.role == follower_role() {
        Some(encode_utf8("role:slave"@))
    } else {
        None
    }
}

/// The answer of a leader to `PSYNC`.
pub open spec fn fullresync_text(i: InfoModel) -> Seq<char> {
    "FULLRESYNC "@ + match i.replication.master_replid {
        Some(id) => id,
        None => Seq::empty(),
    } + " 0"@
}

pub open spec fn answer(replies: Seq<FrameModel>, m: Map<Seq<u8>, EntryModel>) -> Option<
    OutcomeModel,
> {
    Some(OutcomeModel { replies, replicate: None, promote: false, store: m })
}

/// What applying `c` at `now` to a store holding `m` produces; `None` when
/// it fails. With `respond` false a write is not answered.
pub open spec fn outcome_of(c: CommandModel, m: Map<Seq<u8>, EntryModel>, now: u64, respond: bool) -> Option<
    OutcomeModel,
> {
    match c {
        CommandModel::Ping(None) => answer(seq![FrameModel::Simple("PONG"@)], m),
        CommandModel::Ping(Some(b)) => answer(seq![FrameModel::Bulk(b)], m),
        CommandModel::Echo(b) => answer(seq![FrameModel::Bulk(b)], m),
        CommandModel::Get(k) => answer(
            seq![
                match read_result(m, k, now) {
                    Some(v) => FrameModel::Bulk(v),
                    None => FrameModel::Null,
                },
            ],
            after_read(m, k, now),
        ),
        CommandModel::SetCmd(k, v, e) => Some(
            OutcomeModel {
                replies: if respond {
                    seq![FrameModel::OK]
                } else {
                    Seq::empty()
                },
                replicate: Some(set_frame(k, v, e)),
                promote: false,
                store: after_set(
                    m,
                    k,
                    v,
                    match e {
                        Some(ms) => ms,
                        None => DEFAULT_EXPIRY,
                    },
                    now,
                ),
            },
        ),
        CommandModel::Info(_) => match info_read(m, now) {
            Some(i) => match info_block(i) {
                Some(b) => answer(seq![FrameModel::Bulk(b)], m),
                None => None,
            },
            None => None,
        },
        CommandModel::ReplConf(_, _, getack) => if getack is Some {
            answer(
                seq![
                    FrameModel::Array(
                        seq![
                            FrameModel::Bulk(encode_utf8("REPLCONF"@)),
                            FrameModel::Bulk(encode_utf8("ACK"@)),
                            FrameModel::Bulk(encode_utf8("0"@)),
                        ],
                    ),
                ],
                m,
            )
        } else {
            answer(seq![FrameModel::OK], m)
        },
        CommandModel::Psync(_) => match info_read(m, now) {
            Some(i) => if i.replication.role == follower_role() {
                answer(seq![FrameModel::Error("Not a master server"@)], m)
            } else {
                Some(
                    OutcomeModel {
                        replies: seq![FrameModel::Simple(fullresync_text(i))],
                        replicate: None,
                        promote: true,
                        store: m,
                    },
                )
            },
            None => None,
        },
        CommandModel::Unknown(name) => answer(
            seq![FrameModel::Error("ERR unknown command '"@ + name + "'"@)],
            m,
        ),
    }
}

fn single(f: Frame) -> (r: Vec<Frame>)
    ensures
        models(r@) == seq![f@],
{
    let r = vec![f];
    assert(models(r@) =~= seq![f@]);
    r
}

fn bulk_text(s: &str) -> (r: Frame)
    ensures
        r@ == FrameModel::Bulk(encode_utf8(s@)),
{
    Frame::Bulk(utf8_bytes(s))
}

impl Command {
    /// Applies the command at `now`: reads or writes the store and says what
    /// to answer, what to send on to followers, and whether the peer becomes
    /// a follower. With `respond` false (a follower replaying its leader's
    /// writes) a write is not answered.
    pub fn apply(self, store: &mut Store, now: u64, respond: bool) -> (r: Result<Outcome, CommandError>)
        requires
            old(store).wf(),
        ensures
            final(store).wf(),
            r is Ok <==> outcome_of(self@, old(store)@, now, respond) is Some,
            r is Ok ==> ({
                let o = outcome_of(self@, old(store)@, now, respond)->Some_0;
                &&& models(r->Ok_0.replies@) == o.replies
                &&& opt_frame(r->Ok_0.replicate) == o.replicate
                &&& r->Ok_0.promote == o.promote
                &&& final(store)@ == o.store
            }),
            r is Err ==> final(store)@ == old(store)@,
    {
        let ghost c = self@;
        match self {
            Command::Ping(p) => {
                let reply = match p.msg {
                    None => Frame::Simple("PONG".to_owned()),
                    Some(msg) => Frame::Bulk(msg),
                };
                Ok(Outcome { replies: single(reply), replicate: None, promote: false })
            },
            Command::Echo(e) => Ok(
                Outcome { replies: single(Frame::Bulk(e.msg)), replicate: None, promote: false },
            ),
            Command::Get(g) => {
                let reply = match store.get(g.key.as_slice(), now) {
                    Some(v) => Frame::Bulk(v),
                    None => Frame::Null,
                };
                Ok(Outcome { replies: single(reply), replicate: None, promote: false })
            },
            Command::SetCmd(cmd) => {
                let ttl = match cmd.expiry {
                    Some(ms) => ms,
                    None => DEFAULT_EXPIRY,
                };
                let replicate = crate::publisher::action_frame(
                    crate::publisher::Action::SetValue {
                        key: cmd.key.clone(),
                        value: cmd.value.clone(),
                        expiry: cmd.expiry,
                    },
                );
                store.set(cmd.key, cmd.value, ttl, now);
                let replies = if respond {
                    single(Frame::OK)
                } else {
                    let e: Vec<Frame> = Vec::new();
                    assert(models(e@) =~= Seq::<FrameModel>::empty());
                    e
                };
                Ok(Outcome { replies, replicate: Some(replicate), promote: false })
            },
            Command::Info(_) => {
                let info = match crate::info::Info::from_store(store, now) {
                    Ok(i) => i,
                    Err(_) => return Err(invalid("invalid server information")),
                };
                let mut out: Vec<u8> = Vec::new();
                if text_equal(info.replication.role.as_str(), "master") {
                    crate::frame::push_bytes(&mut out, "role:master\r\nmaster_replid:".as_bytes());
                    match &info.replication.master_replid {
                        Some(id) => crate::frame::push_bytes(&mut out, id.as_str().as_bytes()),
                        None => {},
                    }
                    crate::frame::push_bytes(&mut out, "\r\nmaster_repl_offset:".as_bytes());
                    let offset = match info.replication.master_repl_offset {
                        Some(o) => o,
                        None => 0,
                    };
                    crate::number::push_decimal(&mut out, offset);
                    crate::frame::push_bytes(&mut out, "\r\n".as_bytes());
                    proof {
                        assert(encode_utf8(Seq::<char>::empty()) =~= Seq::<u8>::empty());
                        assert(out@ =~= info_block(info@)->Some_0);
                    }
                } else if text_equal(info.replication.role.as_str(), "slave") {
                    crate::frame::push_bytes(&mut out, "role:slave".as_bytes());
                    assert(out@ =~= info_block(info@)->Some_0);
                } else {
                    return Err(invalid("invalid role"));
                }
                Ok(Outcome { replies: single(Frame::Bulk(out)), replicate: None, promote: false })
            },
            Command::ReplConf(conf) => {
                let reply = match conf.getack_option {
                    Some(_) => {
                        let items = vec![bulk_text("REPLCONF"), bulk_text("ACK"), bulk_text("0")];
                        proof {
                            lemma_array_model(items);
                            assert(models(items@) =~= seq![
                                FrameModel::Bulk(encode_utf8("REPLCONF"@)),
                                FrameModel::Bulk(encode_utf8("ACK"@)),
                                FrameModel::Bulk(encode_utf8("0"@)),
                            ]);
                        }
                        Frame::Array(items)
                    },
                    None => Frame::OK,
                };
                Ok(Outcome { replies: single(reply), replicate: None, promote: false })
            },
            Command::Psync(_) => {
                let info = match crate::info::Info::from_store(store, now) {
                    Ok(i) => i,
                    Err(_) => return Err(invalid("invalid server information")),
                };
                if info.is_replica() {
                    let reply = Frame::Error("Not a master server".to_owned());
                    return Ok(Outcome { replies: single(reply), replicate: None, promote: false });
                }
                let mut text = "FULLRESYNC ".to_owned();
                match &info.replication.master_replid {
                    Some(id) => text.append(id.as_str()),
                    None => {},
                }
                text.append(" 0");
                assert(text@ =~= fullresync_text(info@));
                Ok(Outcome { replies: single(Frame::Simple(text)), replicate: None, promote: true })
            },
            Command::Unknown(u) => {
                let mut text = "ERR unknown command '".to_owned();
                text.append(u.command_name.as_str());
                text.append("'");
                Ok(Outcome { replies: single(Frame::Error(text)), replicate: None, promote: false })
            },
        }
    }
}

impl CommandError {
    /// The error frame that answers this failure.
    pub fn to_frame(&self) -> (r: Frame)
        ensures
            r@ == FrameModel::Error(
                "ERR "@ + match self {
                    CommandError::Invalid(msg) => msg@,
                },
            ),
    {
        match self {
            CommandError::Invalid(msg) => {
                let mut text = "ERR ".to_owned();
                text.append(msg.as_str());
                Frame::Error(text)
            },
        }
    }
}

/// `SET k v` followed at once by `GET k` answers `v`, and the read changes
/// nothing.
pub proof fn law_set_then_get_answers(m: Map<Seq<u8>, EntryModel>, key: Seq<u8>, value: Seq<u8>, now: u64)
    requires
        now < u64::MAX,
    ensures
        ({
            let set = outcome_of(CommandModel::SetCmd(key, value, None), m, now, true)->Some_0;
            &&& outcome_of(CommandModel::Get(key), set.store, now, true)->Some_0.replies == seq![
                FrameModel::Bulk(value),
            ]
            &&& outcome_of(CommandModel::Get(key), set.store, now, true)->Some_0.store == set.store
        }),
{
    law_set_then_get(m, key, value, DEFAULT_EXPIRY, now, now);
}

/// `GET` of a live entry, reserved keys included, answers its stored bytes
/// as they are and leaves the store as it was.
pub proof fn law_get_live_entry(m: Map<Seq<u8>, EntryModel>, key: Seq<u8>, now: u64)
    requires
        m.contains_key(key),
        now < m[key].1,
    ensures
        outcome_of(CommandModel::Get(key), m, now, true)->Some_0.replies == seq![
            FrameModel::Bulk(m[key].0),
        ],
        outcome_of(CommandModel::Get(key), m, now, true)->Some_0.store == m,
{
}

/// `SET k v PX t` followed, more than `t` milliseconds later, by `GET k`
/// answers the null frame.
pub proof fn law_expired_get_answers_null(
    m: Map<Seq<u8>, EntryModel>,
    key: Seq<u8>,
    value: Seq<u8>,
    ttl: u64,
    now: u64,
    later: u64,
)
    requires
        later > now + ttl,
    ensures
        ({
            let set = outcome_of(CommandModel::SetCmd(key, value, Some(ttl)), m, now, true)->Some_0;
            outcome_of(CommandModel::Get(key), set.store, later, true)->Some_0.replies == seq![
                FrameModel::Null,
            ]
        }),
{
    law_expired_read(m, key, value, ttl, now, later);
}

impl Ping {
    pub fn new(msg: Option<Vec<u8>>) -> (r: Ping)
        ensures
            opt_bytes(r.msg) == opt_bytes(msg),
    {
        Ping { msg }
    }
}

impl Echo {
    pub fn new(msg: Vec<u8>) -> (r: Echo)
        ensures
            r.msg@ == msg@,
    {
        Echo { msg }
    }
}

impl Get {
    pub fn new(key: Vec<u8>) -> (r: Get)
        ensures
            r.key@ == key@,
    {
        Get { key }
    }
}

impl SetCmd {
    pub fn new(key: Vec<u8>, value: Vec<u8>, expiry: Option<u64>) -> (r: SetCmd)
        ensures
            r.key@ == key@,
            r.value@ == value@,
            r.expiry == expiry,
    {
        SetCmd { key, value, expiry }
    }
}

impl Info {
    pub fn new(kind: Vec<u8>) -> (r: Info)
        ensures
            r.kind@ == kind@,
    {
        Info { kind }
    }
}

/// The command that the bytes `bytes` from a client start with, when they
/// hold a whole frame.
pub fn parse_command(bytes: &[u8]) -> (r: Result<Command, CommandError>)
    ensures
        r is Ok <==> (parse_frame(bytes@, 0, false) is Done && command_from(parse_frame(bytes@, 0, false)->Done_0)
            is Some),
        r is Ok ==> r->Ok_0@ == command_from(parse_frame(bytes@, 0, false)->Done_0)->Some_0,
{
    match Frame::parse(bytes, 0, false) {
        Ok((frame, _)) => Command::from_frame(frame),
        Err(_) => Err(invalid("protocol error; invalid frame")),
    }
}

} // verus!
