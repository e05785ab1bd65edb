//! The bytes read from a peer that are not yet taken as frames.
use crate::frame::{check_frame, parse_frame, Error, Frame, Scan};
use vstd::prelude::*;

verus! {

broadcast use vstd::std_specs::vec::group_vec_axioms, vstd::seq::group_seq_axioms;

pub struct FrameBuffer {
    buffer: Vec<u8>,
    /// Whether this is a follower's stream from its leader, on which a
    /// snapshot arrives without CR LF after its payload.
    is_follower_receiving_sync_request: bool,
}

impl View for FrameBuffer {
    type V = Seq<u8>;

    closed spec fn view(&self) -> Seq<u8> {
        self.buffer@
    }
}

impl FrameBuffer {
    pub closed spec fn follower(&self) -> bool {
        self.is_follower_receiving_sync_request
    }

    pub fn new(is_follower_receiving_sync_request: bool) -> (r: FrameBuffer)
        ensures
            r@ == Seq::<u8>::empty(),
            r.follower() == is_follower_receiving_sync_request,
    {
        FrameBuffer { buffer: Vec::new(), is_follower_receiving_sync_request }
    }

    /// Whether this is a follower's stream from its leader.
    pub fn is_follower_receiving_sync_request(&self) -> (r: bool)
        ensures
            r == self.follower(),
    {
        self.is_follower_receiving_sync_request
    }

    /// Whether nothing is waiting.
    pub fn is_empty(&self) -> (r: bool)
        ensures
            r == (self@.len() == 0),
    {
        self.buffer.len() == 0
    }

    /// Adds bytes read from the peer.
    pub fn extend(&mut self, bytes: &[u8])
        ensures
            final(self).follower() == old(self).follower(),
            final(self)@ == old(self)@ + bytes@,
    {
        crate::frame::push_bytes(&mut self.buffer, bytes);
    }

    /// Takes the frame at the front when it has fully arrived. `None` means
    /// more bytes are needed; a frame that breaks the rules is an error.
    pub fn next_frame(&mut self) -> (r: Result<Option<Frame>, Error>)
        ensures
            final(self).follower() == old(self).follower(),
            match check_frame(old(self)@, 0, old(self).follower()) {
                Scan::Incomplete => r is Ok && r->Ok_0 is None && final(self)@ == old(self)@,
                Scan::Invalid => r is Err && final(self)@ == old(self)@,
                Scan::Done(_, _) => match parse_frame(old(self)@, 0, old(self).follower()) {
                    Scan::Done(m, e) => {
                        &&& r is Ok
                        &&& r->Ok_0 is Some
                        &&& r->Ok_0->Some_0@ == m
                        &&& final(self)@ == old(self)@.subrange(e, old(self)@.len() as int)
                    },
                    _ => r is Err && final(self)@ == old(self)@,
                },
            },
    {
        match Frame::check(self.buffer.as_slice(), 0, self.is_follower_receiving_sync_request) {
            Ok(_) => {},
            Err(Error::Incomplete) => {
                return Ok(None);
            },
            Err(e) => {
                return Err(e);
            },
        }
        match Frame::parse(self.buffer.as_slice(), 0, self.is_follower_receiving_sync_request) {
            Ok((frame, end)) => {
                let rest = self.buffer.split_off(end);
                self.buffer = rest;
                Ok(Some(frame))
            },
            Err(e) => Err(e),
        }
    }

    /// Drops whatever is waiting, after bytes that break the framing rules.
    pub fn clear(&mut self)
        ensures
            final(self).follower() == old(self).follower(),
            final(self)@ == Seq::<u8>::empty(),
    {
        self.buffer.clear();
    }

    /// What the end of the peer's stream means: a clean close when nothing
    /// is waiting, else a connection reset in the middle of a frame.
    pub fn at_end_of_stream(&self) -> (r: Result<(), Error>)
        ensures
            r is Ok <==> self@.len() == 0,
            r is Err ==> r->Err_0 is Other,
    {
        if self.buffer.len() == 0 {
            Ok(())
        } else {
            Err(Error::Other("connection reset by peer".to_owned()))
        }
    }
}

} // verus!
