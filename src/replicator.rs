//! The follower's side of replication: the handshake with the leader, then
//! the leader's writes replayed on the local store.
use crate::command::{command_from, outcome_of, Command};
use crate::frame::{frames_equal, lemma_array_model, models, Frame, FrameModel};
use crate::info::Info;
use crate::number::{decimal, decimal_digits};
use crate::store::Store;
use crate::text::utf8_bytes;
use vstd::prelude::*;
use vstd::utf8::encode_utf8;

verus! {

broadcast use vstd::std_specs::vec::group_vec_axioms, vstd::seq::group_seq_axioms;

/// Where the follower stands in its dialogue with the leader.
#[derive(PartialEq, Eq, Structural, Debug, Clone, Copy)]
pub enum Stage {
    /// Nothing sent yet.
    Connecting,
    PingSent,
    ListeningPortSent,
    CapaSent,
    PsyncSent,
    AwaitingSnapshot,
    /// Replaying the leader's writes.
    Applying,
    /// The handshake went wrong; nothing more is done.
    Failed,
}

/// What the follower does after a frame from the leader.
pub enum Step {
    /// Sends the next handshake frame.
    Send(Frame),
    /// Sends nothing.
    Continue,
    /// Sends the answers of a replayed command.
    Respond(Vec<Frame>),
    /// A replayed command failed; the dialogue goes on.
    Ignored(String),
    /// The leader answered wrongly: replication stops.
    Fail(String),
}

pub struct Replicator {
    pub stage: Stage,
    pub self_port: u16,
}

pub open spec fn bulk_of(s: &str) -> FrameModel {
    FrameModel::Bulk(encode_utf8(s@))
}

pub open spec fn ping_model() -> FrameModel {
    FrameModel::Array(seq![bulk_of("PING")])
}

pub open spec fn listening_port_model(port: u16) -> FrameModel {
    FrameModel::Array(
        seq![
            bulk_of("REPLCONF"),
            bulk_of("listening-port"),
            FrameModel::Bulk(decimal_digits(port as nat)),
        ],
    )
}

pub open spec fn capability_model() -> FrameModel {
    FrameModel::Array(seq![bulk_of("REPLCONF"), bulk_of("capa"), bulk_of("psync2")])
}

pub open spec fn psync_model() -> FrameModel {
    FrameModel::Array(seq![bulk_of("PSYNC"), bulk_of("?"), bulk_of("-1")])
}

/// A leader's answer to `PSYNC`: a simple frame that starts with `FULLRESYNC `.
pub open spec fn is_fullresync(f: FrameModel) -> bool {
    match f {
        FrameModel::Simple(s) => {
            let b = encode_utf8(s);
            let p = encode_utf8("FULLRESYNC "@);
            b.len() >= p.len() && b.subrange(0, p.len() as int) == p
        },
        _ => false,
    }
}

/// The stage after frame `f` arrives in stage `s`, and the frame to send in
/// answer during the handshake.
pub open spec fn handshake(s: Stage, port: u16, f: FrameModel) -> (Stage, Option<FrameModel>) {
    match s {
        Stage::PingSent => if f == FrameModel::Simple("PONG"@) {
            (Stage::ListeningPortSent, Some(listening_port_model(port)))
        } else {
            (Stage::Failed, None)
        },
        Stage::ListeningPortSent => if f == FrameModel::Simple("OK"@) {
            (Stage::CapaSent, Some(capability_model()))
        } else {
            (Stage::Failed, None)
        },
        Stage::CapaSent => if f == FrameModel::Simple("OK"@) {
            (Stage::PsyncSent, Some(psync_model()))
        } else {
            (Stage::Failed, None)
        },
        Stage::PsyncSent => if is_fullresync(f) {
            (Stage::AwaitingSnapshot, None)
        } else {
            (Stage::Failed, None)
        },
        Stage::AwaitingSnapshot => if f is Bulk || f is RdbFile {
            (Stage::Applying, None)
        } else {
            (Stage::Failed, None)
        },
        Stage::Applying => (Stage::Applying, None),
        _ => (Stage::Failed, None),
    }
}

fn array_of(items: Vec<Frame>) -> (r: Frame)
    ensures
        r@ == FrameModel::Array(models(items@)),
{
    proof {
        lemma_array_model(items);
    }
    Frame::Array(items)
}

fn bulk(s: &str) -> (r: Frame)
    ensures
        r@ == bulk_of(s),
{
    Frame::Bulk(utf8_bytes(s))
}

/// `PING`.
pub fn ping_fame() -> (r: Frame)
    ensures
        r@ == ping_model(),
{
    let items = vec![bulk("PING")];
    assert(models(items@) =~= seq![bulk_of("PING")]);
    array_of(items)
}

/// `REPLCONF listening-port <port>`, with the port this server listens on.
pub fn listening_port_frame(info: &Info) -> (r: Frame)
    ensures
        r@ == listening_port_model(info.self_port),
{
    let items = vec![
        bulk("REPLCONF"),
        bulk("listening-port"),
        Frame::Bulk(decimal(info.self_port as u64)),
    ];
    assert(models(items@) =~= listening_port_model(info.self_port)->Array_0);
    array_of(items)
}

/// `REPLCONF capa psync2`.
pub fn capability_bytes() -> (r: Frame)
    ensures
        r@ == capability_model(),
{
    let items = vec![bulk("REPLCONF"), bulk("capa"), bulk("psync2")];
    assert(models(items@) =~= capability_model()->Array_0);
    array_of(items)
}

/// `PSYNC ? -1`: a full copy, from no known replication id.
pub fn psync_bytes() -> (r: Frame)
    ensures
        r@ == psync_model(),
{
    let items = vec![bulk("PSYNC"), bulk("?"), bulk("-1")];
    assert(models(items@) =~= psync_model()->Array_0);
    array_of(items)
}

fn fullresync(f: &Frame) -> (r: bool)
    ensures
        r == is_fullresync(f@),
{
    match f {
        Frame::Simple(s) => {
            let b = s.as_str().as_bytes();
            let p = "FULLRESYNC ".as_bytes();
            if b.len() < p.len() {
                return false;
            }
            let head = vstd::slice::slice_subrange(b, 0, p.len());
            crate::frame::bytes_equal(head, p)
        },
        _ => false,
    }
}

impl Replicator {
    pub fn new(info: &Info) -> (r: Replicator)
        ensures
            r.stage == Stage::Connecting,
            r.self_port == info.self_port,
    {
        Replicator { stage: Stage::Connecting, self_port: info.self_port }
    }

    /// Opens the handshake: the frame to send first.
    pub fn start(&mut self) -> (r: Frame)
        ensures
            final(self).stage == Stage::PingSent,
            final(self).self_port == old(self).self_port,
            r@ == ping_model(),
    {
        self.stage = Stage::PingSent;
        ping_fame()
    }

    /// Takes frame `frame` from the leader at `now`. During the handshake it
    /// checks the answer and gives the next frame to send; once the snapshot
    /// has come, each array frame is read as a command and applied to the
    /// store without answering writes; other frames are dropped.
    pub fn on_frame(&mut self, frame: Frame, store: &mut Store, now: u64) -> (r: Step)
        requires
            old(store).wf(),
        ensures
            final(store).wf(),
            final(self).self_port == old(self).self_port,
            old(self).stage != Stage::Applying ==> ({
                let (next, send) = handshake(old(self).stage, old(self).self_port, frame@);
                &&& final(self).stage == next
                &&& final(store)@ == old(store)@
                &&& match send {
                    Some(m) => r is Send && r->Send_0@ == m,
                    None => if next == Stage::Failed {
                        r is Fail
                    } else {
                        r is Continue
                    },
                }
            }),
            old(self).stage == Stage::Applying ==> ({
                &&& final(self).stage == Stage::Applying
                &&& if !(frame@ is Array) {
                    r is Continue && final(store)@ == old(store)@
                } else {
                    match command_from(frame@) {
                        Some(c) => match outcome_of(c, old(store)@, now, false) {
                            Some(o) => r is Respond && models(r->Respond_0@) == o.replies
                                && final(store)@ == o.store,
                            None => r is Ignored && final(store)@ == old(store)@,
                        },
                        None => r is Ignored && final(store)@ == old(store)@,
                    }
                }
            }),
    {
        match self.stage {
            Stage::PingSent => {
                if frames_equal(&frame, &Frame::Simple("PONG".to_owned())) {
                    self.stage = Stage::ListeningPortSent;
                    let port = self.self_port;
                    let items = vec![
                        bulk("REPLCONF"),
                        bulk("listening-port"),
                        Frame::Bulk(decimal(port as u64)),
                    ];
                    assert(models(items@) =~= listening_port_model(port)->Array_0);
                    Step::Send(array_of(items))
                } else {
                    self.stage = Stage::Failed;
                    Step::Fail("expected PONG".to_owned())
                }
            },
            Stage::ListeningPortSent => {
                if frames_equal(&frame, &Frame::Simple("OK".to_owned())) {
                    self.stage = Stage::CapaSent;
                    Step::Send(capability_bytes())
                } else {
                    self.stage = Stage::Failed;
                    Step::Fail("expected OK to REPLCONF listening-port".to_owned())
                }
            },
            Stage::CapaSent => {
                if frames_equal(&frame, &Frame::Simple("OK".to_owned())) {
                    self.stage = Stage::PsyncSent;
                    Step::Send(psync_bytes())
                } else {
                    self.stage = Stage::Failed;
                    Step::Fail("expected OK to REPLCONF capa".to_owned())
                }
            },
            Stage::PsyncSent => {
                if fullresync(&frame) {
                    self.stage = Stage::AwaitingSnapshot;
                    Step::Continue
                } else {
                    self.stage = Stage::Failed;
                    Step::Fail("expected FULLRESYNC".to_owned())
                }
            },
            Stage::AwaitingSnapshot => {
                match frame {
                    Frame::Bulk(_) | Frame::RdbFile(_) => {
                        self.stage = Stage::Applying;
                        Step::Continue
                    },
                    _ => {
                        self.stage = Stage::Failed;
                        Step::Fail("expected the snapshot".to_owned())
                    },
                }
            },
            Stage::Applying => {
                match frame {
                    Frame::Array(_) => {},
                    _ => {
                        return Step::Continue;
                    },
                }
                let command = match Command::from_frame(frame) {
                    Ok(c) => c,
                    Err(_) => {
                        return Step::Ignored("unreadable command from the leader".to_owned());
                    },
                };
                match command.apply(store, now, false) {
                    Ok(outcome) => Step::Respond(outcome.replies),
                    Err(_) => Step::Ignored("command from the leader failed".to_owned()),
                }
            },
            _ => {
                self.stage = Stage::Failed;
                Step::Fail("no handshake in progress".to_owned())
            },
        }
    }
}

} // verus!
