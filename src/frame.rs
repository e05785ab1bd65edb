//! Frames of the wire protocol: their model, the grammar that reads them from
//! bytes, and the bytes that each frame is written as.
use crate::number::{
    decimal_digits, decimal_of, is_digit, lemma_decimal_digits, lemma_leading_u64_of_decimal,
    push_decimal, read_decimal,
};
use vstd::prelude::*;
use vstd::slice::{slice_subrange, slice_to_vec};
use vstd::utf8::{
    decode_utf8, encode_utf8, encode_utf8_decode_utf8, encode_utf8_valid_utf8, valid_utf8,
};

verus! {

broadcast use vstd::std_specs::vec::group_vec_axioms, vstd::seq::group_seq_axioms,
    vstd::slice::group_slice_axioms;

/// A frame in the wire protocol.
#[derive(Debug)]
pub enum Frame {
    Simple(String),
    Error(String),
    Integer(u64),
    Bulk(Vec<u8>),
    Null,
    OK,
    Array(Vec<Frame>),
    /// A snapshot: written as a bulk frame without the closing CR LF.
    RdbFile(Vec<u8>),
}

/// Why bytes could not be read as a frame.
#[derive(Debug)]
pub enum Error {
    /// Not enough data is available to read a whole frame.
    Incomplete,
    /// The bytes break the framing rules.
    Other(String),
}

/// What a frame holds, with texts as characters and payloads as bytes.
pub enum FrameModel {
    Simple(Seq<char>),
    Error(Seq<char>),
    Integer(u64),
    Bulk(Seq<u8>),
    Null,
    OK,
    Array(Seq<FrameModel>),
    RdbFile(Seq<u8>),
}

pub open spec fn model_of(f: Frame) -> FrameModel
    decreases f,
{
    match f {
        Frame::Simple(s) => FrameModel::Simple(s@),
        Frame::Error(s) => FrameModel::Error(s@),
        Frame::Integer(n) => FrameModel::Integer(n),
        Frame::Bulk(b) => FrameModel::Bulk(b@),
        Frame::Null => FrameModel::Null,
        Frame::OK => FrameModel::OK,
        Frame::Array(v) => FrameModel::Array(
            Seq::new(
                v@.len(),
                |i: int|
                    if 0 <= i < v@.len() {
                        model_of(v@[i])
                    } else {
                        FrameModel::Null
                    },
            ),
        ),
        Frame::RdbFile(b) => FrameModel::RdbFile(b@),
    }
}

impl View for Frame {
    type V = FrameModel;

    open spec fn view(&self) -> FrameModel {
        model_of(*self)
    }
}

pub open spec fn models(v: Seq<Frame>) -> Seq<FrameModel> {
    v.map_values(|f: Frame| f@)
}

pub proof fn lemma_array_model(v: Vec<Frame>)
    ensures
        Frame::Array(v)@ == FrameModel::Array(models(v@)),
{
    let m = Frame::Array(v)@;
    if let FrameModel::Array(items) = m {
        assert(items =~= models(v@));
    }
}

/// The result of reading something from position `p` of a buffer: the thing
/// and the position just past it, or the buffer ends too early, or the bytes
/// are not valid.
pub enum Scan<T> {
    Done(T, int),
    Incomplete,
    Invalid,
}

pub open spec fn crlf() -> Seq<u8> {
    seq![13u8, 10u8]
}

pub open spec fn crlf_at(s: Seq<u8>, i: int) -> bool {
    0 <= i && i + 1 < s.len() && s[i] == 13u8 && s[i + 1] == 10u8
}

/// Where the first CR LF at or after `i` starts, or -1.
pub open spec fn find_crlf(s: Seq<u8>, i: int) -> int
    decreases s.len() - i,
{
    if i < 0 || i + 1 >= s.len() {
        -1
    } else if crlf_at(s, i) {
        i
    } else {
        find_crlf(s, i + 1)
    }
}

/// The line from `p` up to the next CR LF.
pub open spec fn line_at(s: Seq<u8>, p: int) -> Scan<Seq<u8>> {
    let e = find_crlf(s, p);
    if e < 0 {
        Scan::Incomplete
    } else {
        Scan::Done(s.subrange(p, e), e + 2)
    }
}

/// A line that holds an unsigned decimal number: digits only.
pub open spec fn decimal_at(s: Seq<u8>, p: int) -> Scan<u64> {
    match line_at(s, p) {
        Scan::Done(l, q) => match decimal_of(l) {
            Some(n) => Scan::Done(n, q),
            None => Scan::Invalid,
        },
        Scan::Incomplete => Scan::Incomplete,
        Scan::Invalid => Scan::Invalid,
    }
}

/// A bulk frame whose length line starts at `p`. Its payload is followed by
/// CR LF; any other byte after it breaks the rules. On a follower's stream
/// from its leader a snapshot comes without them: there, when the byte after
/// the payload is not a CR, or there is none, the frame ends with the payload.
pub open spec fn bulk_at(s: Seq<u8>, p: int, follower: bool) -> Scan<FrameModel> {
    if p < 0 || p >= s.len() {
        Scan::Incomplete
    } else if s[p] == 45u8 {
        match line_at(s, p) {
            Scan::Done(l, q) => if l == seq![45u8, 49u8] {
                Scan::Done(FrameModel::Null, q)
            } else {
                Scan::Invalid
            },
            Scan::Incomplete => Scan::Incomplete,
            Scan::Invalid => Scan::Invalid,
        }
    } else {
        match decimal_at(s, p) {
            Scan::Done(n, q) => if n > usize::MAX {
                Scan::Invalid
            } else if q + n > s.len() {
                Scan::Incomplete
            } else if q + n == s.len() || s[q + n] != 13u8 {
                if follower {
                    Scan::Done(FrameModel::Bulk(s.subrange(q, q + n)), q + n)
                } else if q + n == s.len() {
                    Scan::Incomplete
                } else {
                    Scan::Invalid
                }
            } else if q + n + 2 > s.len() {
                Scan::Incomplete
            } else if s[q + n + 1] == 10u8 {
                Scan::Done(FrameModel::Bulk(s.subrange(q, q + n)), q + n + 2)
            } else {
                Scan::Invalid
            },
            Scan::Incomplete => Scan::Incomplete,
            Scan::Invalid => Scan::Invalid,
        }
    }
}

pub open spec fn end_of<T>(r: Scan<T>) -> Scan<()> {
    match r {
        Scan::Done(_, e) => Scan::Done((), e),
        Scan::Incomplete => Scan::Incomplete,
        Scan::Invalid => Scan::Invalid,
    }
}

/// Whether a whole frame starts at `p`, and where it ends. Texts are not
/// decoded here.
pub open spec fn check_frame(s: Seq<u8>, p: int, follower: bool) -> Scan<()>
    decreases s.len() - p, 0int,
{
    if p < 0 || p >= s.len() {
        Scan::Incomplete
    } else if s[p] == 43u8 || s[p] == 45u8 {
        end_of(line_at(s, p + 1))
    } else if s[p] == 58u8 {
        end_of(decimal_at(s, p + 1))
    } else if s[p] == 36u8 {
        end_of(bulk_at(s, p + 1, follower))
    } else if s[p] == 42u8 {
        match decimal_at(s, p + 1) {
            Scan::Done(n, q) => if p < q <= s.len() {
                check_elems(s, q, n as nat, follower)
            } else {
                Scan::Invalid
            },
            Scan::Incomplete => Scan::Incomplete,
            Scan::Invalid => Scan::Invalid,
        }
    } else {
        Scan::Invalid
    }
}

/// Whether `n` whole frames follow one another from `p` on.
pub open spec fn check_elems(s: Seq<u8>, p: int, n: nat, follower: bool) -> Scan<()>
    decreases s.len() - p, 1int,
{
    if n == 0 {
        Scan::Done((), p)
    } else {
        match check_frame(s, p, follower) {
            Scan::Done(_, e) => if p < e <= s.len() {
                check_elems(s, e, (n - 1) as nat, follower)
            } else {
                Scan::Invalid
            },
            Scan::Incomplete => Scan::Incomplete,
            Scan::Invalid => Scan::Invalid,
        }
    }
}

/// The frame that starts at `p`.
pub open spec fn parse_frame(s: Seq<u8>, p: int, follower: bool) -> Scan<FrameModel>
    decreases s.len() - p, 0int,
{
    if p < 0 || p >= s.len() {
        Scan::Incomplete
    } else if s[p] == 43u8 || s[p] == 45u8 {
        match line_at(s, p + 1) {
            Scan::Done(l, q) => if !valid_utf8(l) {
                Scan::Invalid
            } else if s[p] == 43u8 {
                Scan::Done(FrameModel::Simple(decode_utf8(l)), q)
            } else {
                Scan::Done(FrameModel::Error(decode_utf8(l)), q)
            },
            Scan::Incomplete => Scan::Incomplete,
            Scan::Invalid => Scan::Invalid,
        }
    } else if s[p] == 58u8 {
        match decimal_at(s, p + 1) {
            Scan::Done(n, q) => Scan::Done(FrameModel::Integer(n), q),
            Scan::Incomplete => Scan::Incomplete,
            Scan::Invalid => Scan::Invalid,
        }
    } else if s[p] == 36u8 {
        bulk_at(s, p + 1, follower)
    } else if s[p] == 42u8 {
        match decimal_at(s, p + 1) {
            Scan::Done(n, q) => if n > usize::MAX || q <= p || q > s.len() {
                Scan::Invalid
            } else {
                parse_elems(s, q, n as nat, Seq::empty(), follower)
            },
            Scan::Incomplete => Scan::Incomplete,
            Scan::Invalid => Scan::Invalid,
        }
    } else {
        Scan::Invalid
    }
}

/// An array whose elements `acc` are read, with `n` more to read from `p` on.
pub open spec fn parse_elems(s: Seq<u8>, p: int, n: nat, acc: Seq<FrameModel>, follower: bool) -> Scan<
    FrameModel,
>
    decreases s.len() - p, 1int,
{
    if n == 0 {
        Scan::Done(FrameModel::Array(acc), p)
    } else {
        match parse_frame(s, p, follower) {
            Scan::Done(f, e) => if p < e <= s.len() {
                parse_elems(s, e, (n - 1) as nat, acc.push(f), follower)
            } else {
                Scan::Invalid
            },
            Scan::Incomplete => Scan::Incomplete,
            Scan::Invalid => Scan::Invalid,
        }
    }
}

/// The bytes a frame is written as.
pub open spec fn encoding(m: FrameModel) -> Seq<u8>
    decreases m,
{
    match m {
        FrameModel::Simple(c) => seq![43u8] + encode_utf8(c) + crlf(),
        FrameModel::Error(c) => seq![45u8] + encode_utf8(c) + crlf(),
        FrameModel::Integer(n) => seq![58u8] + decimal_digits(n as nat) + crlf(),
        FrameModel::Bulk(b) => seq![36u8] + decimal_digits(b.len()) + crlf() + b + crlf(),
        FrameModel::Null => seq![36u8, 45u8, 49u8, 13u8, 10u8],
        FrameModel::OK => seq![43u8, 79u8, 75u8, 13u8, 10u8],
        FrameModel::Array(items) => seq![42u8] + decimal_digits(items.len()) + crlf()
            + encode_all(items),
        FrameModel::RdbFile(b) => seq![36u8] + decimal_digits(b.len()) + crlf() + b,
    }
}

/// The bytes of frames written one after the other.
pub open spec fn encode_all(items: Seq<FrameModel>) -> Seq<u8>
    decreases items,
{
    if items.len() == 0 {
        Seq::empty()
    } else {
        encode_all(items.drop_last()) + encoding(items.last())
    }
}

/// `r` reports what `sc` says: the end of the frame, or the kind of failure.
pub open spec fn agrees_end(r: Result<usize, Error>, sc: Scan<()>) -> bool {
    match sc {
        Scan::Done(_, e) => r is Ok && r->Ok_0 == e,
        Scan::Incomplete => r is Err && r->Err_0 is Incomplete,
        Scan::Invalid => r is Err && r->Err_0 is Other,
    }
}

/// `r` holds the frame and the end that `sc` gives, or the kind of failure.
pub open spec fn agrees_frame(r: Result<(Frame, usize), Error>, sc: Scan<FrameModel>) -> bool {
    match sc {
        Scan::Done(m, e) => r is Ok && r->Ok_0.0@ == m && r->Ok_0.1 == e,
        Scan::Incomplete => r is Err && r->Err_0 is Incomplete,
        Scan::Invalid => r is Err && r->Err_0 is Other,
    }
}

proof fn lemma_slice_len(src: &[u8])
    ensures
        src@.len() <= usize::MAX,
{
    assert(src.len() == src@.len());
}

fn invalid(msg: &str) -> (r: Error)
    ensures
        r is Other,
{
    Error::Other(msg.to_owned())
}

/// Relies on `String::from_utf8`: it accepts exactly the valid UTF-8 byte
/// strings, and then holds the characters they encode.
#[verifier::external_body]
pub(crate) fn string_from_utf8(bytes: Vec<u8>) -> (r: Option<String>)
    ensures
        r is Some <==> valid_utf8(bytes@),
        r is Some ==> r->Some_0@ == decode_utf8(bytes@),
{
    String::from_utf8(bytes).ok()
}

pub fn peek_u8(src: &[u8], pos: usize) -> (r: Result<u8, Error>)
    ensures
        pos < src@.len() ==> r is Ok && r->Ok_0 == src@[pos as int],
        pos >= src@.len() ==> r is Err && r->Err_0 is Incomplete,
{
    if pos >= src.len() {
        return Err(Error::Incomplete);
    }
    Ok(src[pos])
}

pub fn get_u8(src: &[u8], pos: usize) -> (r: Result<(u8, usize), Error>)
    ensures
        pos < src@.len() ==> r is Ok && r->Ok_0 == (src@[pos as int], (pos + 1) as usize),
        pos >= src@.len() ==> r is Err && r->Err_0 is Incomplete,
{
    if pos >= src.len() {
        return Err(Error::Incomplete);
    }
    Ok((src[pos], pos + 1))
}

pub fn skip(src: &[u8], pos: usize, n: usize) -> (r: Result<usize, Error>)
    requires
        pos <= src@.len(),
    ensures
        pos + n <= src@.len() ==> r is Ok && r->Ok_0 == pos + n,
        pos + n > src@.len() ==> r is Err && r->Err_0 is Incomplete,
{
    if src.len() - pos < n {
        return Err(Error::Incomplete);
    }
    Ok(pos + n)
}

/// Finds the CR LF that ends the line starting at `pos`; returns where the CR is.
pub fn get_line(src: &[u8], pos: usize) -> (r: Result<usize, Error>)
    ensures
        find_crlf(src@, pos as int) >= 0 ==> r is Ok && r->Ok_0 == find_crlf(src@, pos as int),
        find_crlf(src@, pos as int) < 0 ==> r is Err && r->Err_0 is Incomplete,
        r is Ok ==> pos <= r->Ok_0 && r->Ok_0 + 2 <= src@.len(),
{
    let mut i: usize = pos;
    while i < src.len() && i + 1 < src.len()
        invariant
            pos <= i,
            find_crlf(src@, pos as int) == find_crlf(src@, i as int),
        decreases src@.len() - i,
    {
        if src[i] == 13u8 && src[i + 1] == 10u8 {
            return Ok(i);
        }
        i = i + 1;
    }
    Err(Error::Incomplete)
}

/// Reads a line that holds a number; returns it and where the next line starts.
pub fn get_decimal(src: &[u8], pos: usize) -> (r: Result<(u64, usize), Error>)
    ensures
        match decimal_at(src@, pos as int) {
            Scan::Done(n, q) => r is Ok && r->Ok_0.0 == n && r->Ok_0.1 == q,
            Scan::Incomplete => r is Err && r->Err_0 is Incomplete,
            Scan::Invalid => r is Err && r->Err_0 is Other,
        },
        r is Ok ==> pos + 2 <= r->Ok_0.1 <= src@.len(),
{
    proof {
        lemma_slice_len(src);
    }
    let e = match get_line(src, pos) {
        Ok(e) => e,
        Err(x) => return Err(x),
    };
    let line = slice_subrange(src, pos, e);
    match read_decimal(line) {
        Some(n) => Ok((n, e + 2)),
        None => Err(invalid("protocol error; invalid frame format")),
    }
}

/// Reads a bulk frame whose length line starts at `p`: whether it is the null
/// frame, where its payload starts, how long it is, and where the frame ends.
fn bulk_span(src: &[u8], p: usize, follower: bool) -> (r: Result<(bool, usize, usize, usize), Error>)
    ensures
        match bulk_at(src@, p as int, follower) {
            Scan::Done(m, e) => {
                &&& r is Ok
                &&& r->Ok_0.3 == e
                &&& p < e <= src@.len()
                &&& if r->Ok_0.0 {
                    m == FrameModel::Null
                } else {
                    &&& r->Ok_0.1 + r->Ok_0.2 <= src@.len()
                    &&& m == FrameModel::Bulk(
                        src@.subrange(r->Ok_0.1 as int, r->Ok_0.1 + r->Ok_0.2),
                    )
                }
            },
            Scan::Incomplete => r is Err && r->Err_0 is Incomplete,
            Scan::Invalid => r is Err && r->Err_0 is Other,
        },
{
    proof {
        lemma_slice_len(src);
    }
    let b = match peek_u8(src, p) {
        Ok(b) => b,
        Err(x) => return Err(x),
    };
    if b == 45u8 {
        let e = match get_line(src, p) {
            Ok(e) => e,
            Err(x) => return Err(x),
        };
        let ghost l = src@.subrange(p as int, e as int);
        if e - p == 2 && src[p] == 45u8 && src[p + 1] == 49u8 {
            assert(l =~= seq![45u8, 49u8]);
            Ok((true, 0, 0, e + 2))
        } else {
            assert(l != seq![45u8, 49u8]) by {
                if l == seq![45u8, 49u8] {
                    assert(l.len() == 2 && l[0] == 45u8 && l[1] == 49u8);
                }
            }
            Err(invalid("protocol error; invalid frame format"))
        }
    } else {
        let (n, q) = match get_decimal(src, p) {
            Ok(x) => x,
            Err(x) => return Err(x),
        };
        if n as u128 > usize::MAX as u128 {
            return Err(invalid("protocol error; invalid frame format"));
        }
        let len = n as usize;
        let after = match skip(src, q, len) {
            Ok(a) => a,
            Err(x) => return Err(x),
        };
        if after == src.len() || src[after] != 13u8 {
            if follower {
                Ok((false, q, len, after))
            } else if after == src.len() {
                Err(Error::Incomplete)
            } else {
                Err(invalid("protocol error; bulk payload not followed by CR LF"))
            }
        } else {
            let end = match skip(src, after, 2) {
                Ok(end) => end,
                Err(x) => return Err(x),
            };
            if src[after + 1] == 10u8 {
                Ok((false, q, len, end))
            } else {
                Err(invalid("protocol error; bulk payload not followed by CR LF"))
            }
        }
    }
}

impl Frame {
    /// Returns an empty array
    pub fn array() -> (r: Frame)
        ensures
            r@ == FrameModel::Array(Seq::empty()),
    {
        let r = Frame::Array(Vec::new());
        proof {
            if let FrameModel::Array(items) = r@ {
                assert(items =~= Seq::<FrameModel>::empty());
            }
        }
        r
    }

    /// Checks whether a whole frame starts at `pos`; returns where it ends.
    /// Nothing is copied. `follower` marks a follower's stream from its
    /// leader, where a snapshot may end without CR LF.
    pub fn check(src: &[u8], pos: usize, follower: bool) -> (r: Result<usize, Error>)
        ensures
            agrees_end(r, check_frame(src@, pos as int, follower)),
            r is Ok ==> pos < r->Ok_0 <= src@.len(),
        decreases src@.len() - pos,
    {
        proof {
            lemma_slice_len(src);
        }
        let (t, p) = match get_u8(src, pos) {
            Ok(x) => x,
            Err(x) => return Err(x),
        };
        if t == 43u8 || t == 45u8 {
            match get_line(src, p) {
                Ok(e) => Ok(e + 2),
                Err(x) => Err(x),
            }
        } else if t == 58u8 {
            match get_decimal(src, p) {
                Ok((_, q)) => Ok(q),
                Err(x) => Err(x),
            }
        } else if t == 36u8 {
            match bulk_span(src, p, follower) {
                Ok((_, _, _, e)) => Ok(e),
                Err(x) => Err(x),
            }
        } else if t == 42u8 {
            let (n, q) = match get_decimal(src, p) {
                Ok(x) => x,
                Err(x) => return Err(x),
            };
            assert(check_frame(src@, pos as int, follower) == check_elems(src@, q as int, n as nat, follower));
            let mut i: u64 = 0;
            let mut at: usize = q;
            while i < n
                invariant
                    pos < q <= at <= src@.len(),
                    i <= n,
                    check_frame(src@, pos as int, follower) == check_elems(src@, q as int, n as nat, follower),
                    check_elems(src@, q as int, n as nat, follower) == check_elems(
                        src@,
                        at as int,
                        (n - i) as nat, follower),
                decreases n - i,
            {
                match Frame::check(src, at, follower) {
                    Ok(e) => {
                        at = e;
                    },
                    Err(x) => {
                        return Err(x);
                    },
                }
                i = i + 1;
            }
            Ok(at)
        } else {
            Err(invalid("protocol error; invalid frame type byte"))
        }
    }

    /// Reads the frame that starts at `pos`; returns it and where it ends.
    pub fn parse(src: &[u8], pos: usize, follower: bool) -> (r: Result<(Frame, usize), Error>)
        ensures
            agrees_frame(r, parse_frame(src@, pos as int, follower)),
            r is Ok ==> pos < r->Ok_0.1 <= src@.len(),
        decreases src@.len() - pos,
    {
        proof {
            lemma_slice_len(src);
        }
        let (t, p) = match get_u8(src, pos) {
            Ok(x) => x,
            Err(x) => return Err(x),
        };
        if t == 43u8 || t == 45u8 {
            let e = match get_line(src, p) {
                Ok(e) => e,
                Err(x) => return Err(x),
            };
            let line = slice_to_vec(slice_subrange(src, p, e));
            match string_from_utf8(line) {
                Some(text) => {
                    if t == 43u8 {
                        Ok((Frame::Simple(text), e + 2))
                    } else {
                        Ok((Frame::Error(text), e + 2))
                    }
                },
                None => Err(invalid("protocol error; invalid frame format")),
            }
        } else if t == 58u8 {
            match get_decimal(src, p) {
                Ok((n, q)) => Ok((Frame::Integer(n), q)),
                Err(x) => Err(x),
            }
        } else if t == 36u8 {
            match bulk_span(src, p, follower) {
                Ok((null, start, len, e)) => {
                    if null {
                        Ok((Frame::Null, e))
                    } else {
                        let data = slice_to_vec(slice_subrange(src, start, start + len));
                        Ok((Frame::Bulk(data), e))
                    }
                },
                Err(x) => Err(x),
            }
        } else if t == 42u8 {
            let (n, q) = match get_decimal(src, p) {
                Ok(x) => x,
                Err(x) => return Err(x),
            };
            if n as u128 > usize::MAX as u128 {
                return Err(invalid("protocol error; invalid frame format"));
            }
            let mut out: Vec<Frame> = Vec::new();
            assert(models(out@) =~= Seq::<FrameModel>::empty());
            assert(parse_frame(src@, pos as int, follower) == parse_elems(src@, q as int, n as nat, Seq::empty(), follower));
            let mut i: u64 = 0;
            let mut at: usize = q;
            while i < n
                invariant
                    pos < q <= at <= src@.len(),
                    i <= n,
                    out@.len() == i,
                    parse_frame(src@, pos as int, follower) == parse_elems(src@, q as int, n as nat, Seq::empty(), follower),
                    parse_elems(src@, q as int, n as nat, Seq::empty(), follower) == parse_elems(
                        src@,
                        at as int,
                        (n - i) as nat,
                        models(out@), follower),
                decreases n - i,
            {
                match Frame::parse(src, at, follower) {
                    Ok((f, e)) => {
                        let ghost before = models(out@);
                        out.push(f);
                        assert(models(out@) =~= before.push(f@));
                        at = e;
                    },
                    Err(x) => {
                        return Err(x);
                    },
                }
                i = i + 1;
            }
            proof {
                lemma_array_model(out);
            }
            Ok((Frame::Array(out), at))
        } else {
            Err(invalid("protocol error; invalid frame type byte"))
        }
    }
}

/// Appends the bytes of `b` to `out`.
pub fn push_bytes(out: &mut Vec<u8>, b: &[u8])
    ensures
        final(out)@ == old(out)@ + b@,
{
    let ghost start = out@;
    let mut i: usize = 0;
    while i < b.len()
        invariant
            0 <= i <= b@.len(),
            out@ == start + b@.subrange(0, i as int),
        decreases b@.len() - i,
    {
        out.push(b[i]);
        i = i + 1;
        assert(out@ =~= start + b@.subrange(0, i as int));
    }
    assert(b@.subrange(0, i as int) =~= b@);
}

/// Whether two byte strings are equal.
pub fn bytes_equal(a: &[u8], b: &[u8]) -> (r: bool)
    ensures
        r == (a@ == b@),
{
    if a.len() != b.len() {
        return false;
    }
    let mut i: usize = 0;
    while i < a.len()
        invariant
            a@.len() == b@.len(),
            0 <= i <= a@.len(),
            forall|j: int| 0 <= j < i ==> a@[j] == b@[j],
        decreases a@.len() - i,
    {
        if a[i] != b[i] {
            return false;
        }
        i = i + 1;
    }
    assert(a@ =~= b@);
    true
}

fn push_crlf(out: &mut Vec<u8>)
    ensures
        final(out)@ == old(out)@ + crlf(),
{
    out.push(13u8);
    out.push(10u8);
    assert(out@ =~= old(out)@ + crlf());
}

/// Appends a length line: the marker byte, the length in decimal, CR LF.
fn push_header(out: &mut Vec<u8>, marker: u8, len: usize)
    ensures
        final(out)@ == old(out)@ + seq![marker] + decimal_digits(len as nat) + crlf(),
{
    out.push(marker);
    push_decimal(out, len as u64);
    push_crlf(out);
    assert(out@ =~= old(out)@ + seq![marker] + decimal_digits(len as nat) + crlf());
}

/// Whether two frames hold the same.
pub fn frames_equal(a: &Frame, b: &Frame) -> (r: bool)
    ensures
        r == (a@ == b@),
    decreases a@,
{
    match (a, b) {
        (Frame::Simple(x), Frame::Simple(y)) => x.eq(y),
        (Frame::Error(x), Frame::Error(y)) => x.eq(y),
        (Frame::Integer(x), Frame::Integer(y)) => *x == *y,
        (Frame::Bulk(x), Frame::Bulk(y)) => bytes_equal(x.as_slice(), y.as_slice()),
        (Frame::Null, Frame::Null) => true,
        (Frame::OK, Frame::OK) => true,
        (Frame::RdbFile(x), Frame::RdbFile(y)) => bytes_equal(x.as_slice(), y.as_slice()),
        (Frame::Array(x), Frame::Array(y)) => {
            proof {
                lemma_array_model(*x);
                lemma_array_model(*y);
                assert(a@ == FrameModel::Array(models(x@)));
                assert(b@ == FrameModel::Array(models(y@)));
            }
            if x.len() != y.len() {
                assert(models(x@).len() != models(y@).len());
                return false;
            }
            let mut i: usize = 0;
            while i < x.len()
                invariant
                    x@.len() == y@.len(),
                    0 <= i <= x@.len(),
                    a@ == FrameModel::Array(models(x@)),
                    b@ == FrameModel::Array(models(y@)),
                    forall|j: int| 0 <= j < i ==> x@[j]@ == y@[j]@,
                decreases x@.len() - i,
            {
                proof {
                    let ghost ms = models(x@);
                    assert(decreases_to!(a@ => a@->Array_0));
                    assert(decreases_to!(ms => ms[i as int]));
                    assert(decreases_to!(a@ => ms[i as int]));
                }
                if !frames_equal(&x[i], &y[i]) {
                    assert(models(x@)[i as int] != models(y@)[i as int]);
                    return false;
                }
                i = i + 1;
            }
            assert(models(x@) =~= models(y@));
            true
        },
        _ => false,
    }
}

impl PartialEq for Frame {
    fn eq(&self, other: &Frame) -> (r: bool) {
        frames_equal(self, other)
    }
}

impl vstd::std_specs::cmp::PartialEqSpecImpl for Frame {
    open spec fn obeys_eq_spec() -> bool {
        true
    }

    open spec fn eq_spec(&self, other: &Frame) -> bool {
        self@ == other@
    }
}

impl Frame {
    /// Appends the bytes this frame is written as.
    pub fn encode(&self, out: &mut Vec<u8>)
        ensures
            final(out)@ == old(out)@ + encoding(self@),
        decreases self@,
    {
        match self {
            Frame::Simple(text) => {
                out.push(43u8);
                push_bytes(out, text.as_str().as_bytes());
                push_crlf(out);
                assert(out@ =~= old(out)@ + encoding(self@));
            },
            Frame::Error(text) => {
                out.push(45u8);
                push_bytes(out, text.as_str().as_bytes());
                push_crlf(out);
                assert(out@ =~= old(out)@ + encoding(self@));
            },
            Frame::Integer(n) => {
                out.push(58u8);
                push_decimal(out, *n);
                push_crlf(out);
                assert(out@ =~= old(out)@ + encoding(self@));
            },
            Frame::Bulk(data) => {
                push_header(out, 36u8, data.len());
                push_bytes(out, data.as_slice());
                push_crlf(out);
                assert(out@ =~= old(out)@ + encoding(self@));
            },
            Frame::Null => {
                out.push(36u8);
                out.push(45u8);
                out.push(49u8);
                push_crlf(out);
                assert(out@ =~= old(out)@ + encoding(self@));
            },
            Frame::OK => {
                out.push(43u8);
                out.push(79u8);
                out.push(75u8);
                push_crlf(out);
                assert(out@ =~= old(out)@ + encoding(self@));
            },
            Frame::Array(items) => {
                proof {
                    lemma_array_model(*items);
                }
                push_header(out, 42u8, items.len());
                let ghost head = out@;
                let ghost ms = models(items@);
                let mut i: usize = 0;
                while i < items.len()
                    invariant
                        0 <= i <= items@.len(),
                        ms == models(items@),
                        self@ == FrameModel::Array(ms),
                        out@ == head + encode_all(ms.subrange(0, i as int)),
                    decreases items@.len() - i,
                {
                    proof {
                        assert(decreases_to!(self@ => self@->Array_0));
                        assert(decreases_to!(ms => ms[i as int]));
                        assert(decreases_to!(self@ => ms[i as int]));
                    }
                    items[i].encode(out);
                    assert(ms.subrange(0, i + 1).drop_last() =~= ms.subrange(0, i as int));
                    i = i + 1;
                }
                assert(ms.subrange(0, i as int) =~= ms);
                assert(out@ =~= old(out)@ + encoding(self@));
            },
            Frame::RdbFile(data) => {
                push_header(out, 36u8, data.len());
                push_bytes(out, data.as_slice());
                assert(out@ =~= old(out)@ + encoding(self@));
            },
        }
    }

    /// The bytes this frame is written as.
    pub fn to_bytes(&self) -> (r: Vec<u8>)
        ensures
            r@ == encoding(self@),
    {
        let mut out: Vec<u8> = Vec::new();
        self.encode(&mut out);
        assert(out@ =~= encoding(self@));
        out
    }

    /// Whether this is a simple or bulk frame that holds `text`.
    pub fn eq_text(&self, text: &str) -> (r: bool)
        ensures
            r == match self@ {
                FrameModel::Simple(c) => c == text@,
                FrameModel::Bulk(b) => b == encode_utf8(text@),
                _ => false,
            },
    {
        match self {
            Frame::Simple(s) => crate::text::text_equal(s.as_str(), text),
            Frame::Bulk(b) => bytes_equal(b.as_slice(), text.as_bytes()),
            _ => false,
        }
    }

    /// Appends a bulk frame to an array frame.
    pub fn push_bulk(&mut self, bytes: Vec<u8>) -> (r: Result<(), Error>)
        ensures
            old(self)@ is Array ==> r is Ok && final(self)@ == FrameModel::Array(
                old(self)@->Array_0.push(FrameModel::Bulk(bytes@)),
            ),
            !(old(self)@ is Array) ==> r is Err && final(self)@ == old(self)@,
    {
        match self {
            Frame::Array(items) => {
                proof {
                    lemma_array_model(*items);
                }
                let ghost before = models(items@);
                items.push(Frame::Bulk(bytes));
                proof {
                    lemma_array_model(*items);
                    assert(models(items@) =~= before.push(FrameModel::Bulk(bytes@)));
                }
                Ok(())
            },
            _ => Err(invalid("not an array frame")),
        }
    }

    /// Appends an integer frame to an array frame.
    pub fn push_int(&mut self, value: u64) -> (r: Result<(), Error>)
        ensures
            old(self)@ is Array ==> r is Ok && final(self)@ == FrameModel::Array(
                old(self)@->Array_0.push(FrameModel::Integer(value)),
            ),
            !(old(self)@ is Array) ==> r is Err && final(self)@ == old(self)@,
    {
        match self {
            Frame::Array(items) => {
                proof {
                    lemma_array_model(*items);
                }
                let ghost before = models(items@);
                items.push(Frame::Integer(value));
                proof {
                    lemma_array_model(*items);
                    assert(models(items@) =~= before.push(FrameModel::Integer(value)));
                }
                Ok(())
            },
            _ => Err(invalid("not an array frame")),
        }
    }
}

/// No CR LF pair inside `b`.
pub open spec fn no_crlf(b: Seq<u8>) -> bool {
    forall|i: int| 0 <= i < b.len() - 1 ==> !(#[trigger] b[i] == 13u8 && b[i + 1] == 10u8)
}

/// The frames whose bytes read back as a frame: no snapshot frame, no CR LF
/// inside a text, and lengths that fit.
pub open spec fn accepted(m: FrameModel) -> bool
    decreases m,
{
    match m {
        FrameModel::Simple(c) => no_crlf(encode_utf8(c)),
        FrameModel::Error(c) => no_crlf(encode_utf8(c)),
        FrameModel::Integer(_) => true,
        FrameModel::Bulk(b) => b.len() <= usize::MAX,
        FrameModel::Null => true,
        FrameModel::OK => true,
        FrameModel::Array(items) => items.len() <= usize::MAX && forall|i: int|
            0 <= i < items.len() ==> accepted(#[trigger] items[i]),
        FrameModel::RdbFile(_) => false,
    }
}

/// What a frame reads back as: `OK` is written as the simple frame `OK`.
pub open spec fn read_back(m: FrameModel) -> FrameModel
    decreases m,
{
    match m {
        FrameModel::OK => FrameModel::Simple("OK"@),
        FrameModel::Array(items) => FrameModel::Array(
            Seq::new(
                items.len(),
                |i: int|
                    if 0 <= i < items.len() {
                        read_back(items[i])
                    } else {
                        FrameModel::Null
                    },
            ),
        ),
        _ => m,
    }
}

pub open spec fn read_backs(items: Seq<FrameModel>) -> Seq<FrameModel> {
    Seq::new(items.len(), |i: int| read_back(items[i]))
}

proof fn lemma_ok_bytes()
    ensures
        encode_utf8("OK"@) == seq![79u8, 75u8],
        valid_utf8(seq![79u8, 75u8]),
        decode_utf8(seq![79u8, 75u8]) == "OK"@,
{
    reveal_strlit("OK");
    vstd::utf8::is_ascii_chars_encode_utf8("OK"@);
    assert(encode_utf8("OK"@) =~= seq![79u8, 75u8]);
    encode_utf8_valid_utf8("OK"@);
    encode_utf8_decode_utf8("OK"@);
}

/// `t` stands in `s` from position `p` on.
pub open spec fn holds_at(s: Seq<u8>, p: int, t: Seq<u8>) -> bool {
    0 <= p && p + t.len() <= s.len() && s.subrange(p, p + t.len()) == t
}

/// A part of what stands at `p` stands a little further on.
proof fn lemma_holds_part(s: Seq<u8>, p: int, t: Seq<u8>, i: int, j: int)
    requires
        holds_at(s, p, t),
        0 <= i <= j <= t.len(),
    ensures
        holds_at(s, p + i, t.subrange(i, j)),
{
    assert forall|k: int| 0 <= k < j - i implies s.subrange(p + i, p + j)[k] == t.subrange(
        i,
        j,
    )[k] by {
        assert(s[p + i + k] == s.subrange(p, p + t.len())[i + k]);
    }
    assert(s.subrange(p + i, p + j) =~= t.subrange(i, j));
}

proof fn lemma_find_crlf_skip(s: Seq<u8>, i: int, e: int)
    requires
        0 <= i <= e,
        crlf_at(s, e),
        forall|j: int| i <= j < e ==> !crlf_at(s, j),
    ensures
        find_crlf(s, i) == e,
    decreases e - i,
{
    if i < e {
        lemma_find_crlf_skip(s, i + 1, e);
    }
}

/// A line whose content holds no CR LF ends where its CR LF stands.
proof fn lemma_line(s: Seq<u8>, p: int, c: Seq<u8>)
    requires
        holds_at(s, p, c + crlf()),
        no_crlf(c),
    ensures
        line_at(s, p) == Scan::Done(c, p + c.len() + 2),
{
    let t = c + crlf();
    assert(s.subrange(p, p + t.len()) == t);
    let e = p + c.len();
    assert(s[e] == t[c.len() as int]);
    assert(s[e + 1] == t[c.len() + 1int]);
    assert forall|j: int| p <= j < e implies !crlf_at(s, j) by {
        assert(s[j] == t[j - p]);
        assert(s[j + 1] == t[j + 1 - p]);
        if j + 1 < e {
            assert(t[j - p] == c[j - p]);
            assert(t[j + 1 - p] == c[j + 1 - p]);
        }
    }
    lemma_find_crlf_skip(s, p, e);
    assert(s.subrange(p, e) =~= c);
}

/// A line that holds the decimal form of `n` reads back as `n`.
proof fn lemma_decimal_line(s: Seq<u8>, p: int, n: u64)
    requires
        holds_at(s, p, decimal_digits(n as nat) + crlf()),
    ensures
        decimal_at(s, p) == Scan::Done(n, p + decimal_digits(n as nat).len() + 2),
{
    let d = decimal_digits(n as nat);
    lemma_decimal_digits(n as nat);
    assert(no_crlf(d)) by {
        assert forall|i: int| 0 <= i < d.len() - 1 implies !(#[trigger] d[i] == 13u8 && d[i + 1]
            == 10u8) by {
            assert(is_digit(d[i]));
        }
    }
    lemma_line(s, p, d);
    lemma_leading_u64_of_decimal(n);
}

proof fn lemma_encode_all_step(items: Seq<FrameModel>, j: int)
    requires
        0 <= j < items.len(),
    ensures
        encode_all(items.subrange(0, j + 1)) == encode_all(items.subrange(0, j)) + encoding(
            items[j],
        ),
{
    assert(items.subrange(0, j + 1).drop_last() =~= items.subrange(0, j));
}

/// The bytes of the first `j` frames begin the bytes of all of them.
proof fn lemma_encode_all_prefix(items: Seq<FrameModel>, j: int)
    requires
        0 <= j <= items.len(),
    ensures
        encode_all(items.subrange(0, j)).len() <= encode_all(items).len(),
        encode_all(items).subrange(0, encode_all(items.subrange(0, j)).len() as int)
            == encode_all(items.subrange(0, j)),
    decreases items.len(),
{
    if j == items.len() {
        assert(items.subrange(0, j) =~= items);
        assert(encode_all(items).subrange(0, encode_all(items).len() as int) =~= encode_all(
            items,
        ));
    } else {
        let rest = items.drop_last();
        lemma_encode_all_prefix(rest, j);
        assert(rest.subrange(0, j) =~= items.subrange(0, j));
        let a = encode_all(rest);
        let b = encode_all(items.subrange(0, j));
        assert(encode_all(items) == a + encoding(items.last()));
        assert((a + encoding(items.last())).subrange(0, b.len() as int) =~= a.subrange(
            0,
            b.len() as int,
        ));
    }
}

/// Every frame is written as at least one byte.
proof fn lemma_encoding_nonempty(m: FrameModel)
    ensures
        encoding(m).len() >= 1,
{
    match m {
        FrameModel::Simple(c) => {},
        FrameModel::Error(c) => {},
        FrameModel::Integer(n) => {},
        FrameModel::Bulk(b) => {},
        FrameModel::Null => {},
        FrameModel::OK => {},
        FrameModel::Array(items) => {},
        FrameModel::RdbFile(b) => {},
    }
}

/// Reading the bytes an accepted frame is written as gives the frame back,
/// whatever follows those bytes.
#[verifier::rlimit(40)]
pub proof fn lemma_parse_encoding(m: FrameModel, s: Seq<u8>, p: int, follower: bool)
    requires
        accepted(m),
        holds_at(s, p, encoding(m)),
    ensures
        parse_frame(s, p, follower) == Scan::Done(read_back(m), p + encoding(m).len()),
    decreases m, 0nat,
{
    let t = encoding(m);
    assert(s.subrange(p, p + t.len()) == t);
    assert(s[p] == t[0]);
    match m {
        FrameModel::Simple(c) => {
            let b = encode_utf8(c);
            assert(t == seq![43u8] + (b + crlf()));
            lemma_holds_part(s, p, t, 1, t.len() as int);
            assert(t.subrange(1, t.len() as int) =~= b + crlf());
            lemma_line(s, p + 1, b);
            encode_utf8_valid_utf8(c);
            encode_utf8_decode_utf8(c);
        },
        FrameModel::Error(c) => {
            let b = encode_utf8(c);
            assert(t == seq![45u8] + (b + crlf()));
            lemma_holds_part(s, p, t, 1, t.len() as int);
            assert(t.subrange(1, t.len() as int) =~= b + crlf());
            lemma_line(s, p + 1, b);
            encode_utf8_valid_utf8(c);
            encode_utf8_decode_utf8(c);
        },
        FrameModel::Integer(n) => {
            let d = decimal_digits(n as nat);
            assert(t == seq![58u8] + (d + crlf()));
            lemma_holds_part(s, p, t, 1, t.len() as int);
            assert(t.subrange(1, t.len() as int) =~= d + crlf());
            lemma_decimal_line(s, p + 1, n);
        },
        FrameModel::Bulk(b) => {
            let n = b.len() as u64;
            let d = decimal_digits(n as nat);
            lemma_decimal_digits(n as nat);
            assert(t =~= seq![36u8] + (d + crlf()) + (b + crlf()));
            lemma_holds_part(s, p, t, 1, 1 + (d + crlf()).len() as int);
            assert(t.subrange(1, 1 + (d + crlf()).len() as int) =~= d + crlf());
            lemma_decimal_line(s, p + 1, n);
            assert(s[p + 1] == d[0]);
            assert(is_digit(d[0]));
            let q = p + 1 + d.len() + 2;
            assert(s.subrange(q, q + b.len()) =~= b) by {
                assert forall|i: int| 0 <= i < b.len() implies s.subrange(q, q + b.len())[i] == b[i] by {
                    assert(s[q + i] == t[q + i - p]);
                }
            }
            assert(s[q + b.len()] == t[q + b.len() - p]);
            assert(s[q + b.len() + 1] == t[q + b.len() + 1 - p]);
        },
        FrameModel::Null => {
            assert(s[p + 1] == t[1]);
            assert(holds_at(s, p + 1, seq![45u8, 49u8] + crlf())) by {
                assert(s.subrange(p + 1, p + 5) =~= seq![45u8, 49u8] + crlf());
            }
            lemma_line(s, p + 1, seq![45u8, 49u8]);
        },
        FrameModel::OK => {
            let c = seq![79u8, 75u8];
            lemma_ok_bytes();
            assert(t =~= seq![43u8] + (c + crlf()));
            lemma_holds_part(s, p, t, 1, t.len() as int);
            assert(t.subrange(1, t.len() as int) =~= c + crlf());
            lemma_line(s, p + 1, c);
        },
        FrameModel::Array(items) => {
            let k = items.len() as u64;
            let d = decimal_digits(k as nat);
            let body = encode_all(items);
            assert(t =~= seq![42u8] + (d + crlf()) + body);
            lemma_holds_part(s, p, t, 1, 1 + (d + crlf()).len() as int);
            assert(t.subrange(1, 1 + (d + crlf()).len() as int) =~= d + crlf());
            lemma_decimal_line(s, p + 1, k);
            let q = p + 1 + d.len() + 2;
            lemma_holds_part(s, p, t, q - p, t.len() as int);
            assert(t.subrange(q - p, t.len() as int) =~= body);
            assert(items.subrange(0, 0) =~= Seq::<FrameModel>::empty());
            assert(read_backs(items.subrange(0, 0)) =~= Seq::<FrameModel>::empty());
            lemma_parse_elems(items, s, q, 0, follower);
            assert(items.subrange(0, items.len() as int) =~= items);
            assert(read_backs(items) =~= read_back(m)->Array_0);
        },
        FrameModel::RdbFile(b) => {},
    }
}

/// Reading the frames of an accepted array one after the other, from the
/// `j`-th on, gives the array back.
proof fn lemma_parse_elems(items: Seq<FrameModel>, s: Seq<u8>, q: int, j: int, follower: bool)
    requires
        0 <= j <= items.len(),
        forall|i: int| 0 <= i < items.len() ==> accepted(#[trigger] items[i]),
        holds_at(s, q, encode_all(items)),
    ensures
        parse_elems(
            s,
            q + encode_all(items.subrange(0, j)).len(),
            (items.len() - j) as nat,
            read_backs(items.subrange(0, j)),
            follower,
        ) == Scan::Done(FrameModel::Array(read_backs(items)), q + encode_all(items).len()),
    decreases items, items.len() - j,
{
    let all = encode_all(items);
    if j == items.len() {
        assert(items.subrange(0, j) =~= items);
    } else {
        let pre = encode_all(items.subrange(0, j));
        let f = items[j];
        lemma_encode_all_step(items, j);
        lemma_encode_all_prefix(items, j + 1);
        let pj = q + pre.len();
        let next = encode_all(items.subrange(0, j + 1));
        assert(read_backs(items.subrange(0, j)).push(read_back(f)) =~= read_backs(
            items.subrange(0, j + 1),
        ));
        assert(holds_at(s, pj, encoding(f))) by {
            assert(all.subrange(0, next.len() as int) == next);
            assert forall|i: int| 0 <= i < encoding(f).len() implies s.subrange(
                pj,
                pj + encoding(f).len(),
            )[i] == encoding(f)[i] by {
                assert(s[pj + i] == all[pre.len() + i]);
                assert(all[pre.len() + i] == next[pre.len() + i]);
            }
            assert(s.subrange(pj, pj + encoding(f).len()) =~= encoding(f));
        }
        lemma_parse_encoding(f, s, pj, follower);
        lemma_encoding_nonempty(f);
        lemma_parse_elems(items, s, q, j + 1, follower);
    }
}

/// Reading back what an accepted frame is written as gives the frame, with
/// each `OK` as the simple frame `OK`, which is the same on the wire.
pub proof fn lemma_round_trip(f: Frame, follower: bool)
    requires
        accepted(f@),
    ensures
        parse_frame(encoding(f@), 0, follower) == Scan::Done(
            read_back(f@),
            encoding(f@).len() as int,
        ),
{
    let t = encoding(f@);
    assert(t.subrange(0, t.len() as int) =~= t);
    lemma_parse_encoding(f@, t, 0, follower);
}

/// `t` is the start of `b`.
pub open spec fn is_prefix(t: Seq<u8>, b: Seq<u8>) -> bool {
    t.len() <= b.len() && forall|i: int| 0 <= i < t.len() ==> t[i] == b[i]
}

proof fn lemma_find_crlf_bounds(s: Seq<u8>, i: int)
    requires
        0 <= i,
    ensures
        find_crlf(s, i) >= 0 ==> i <= find_crlf(s, i) && find_crlf(s, i) + 2 <= s.len(),
    decreases s.len() - i,
{
    if i + 1 < s.len() && !crlf_at(s, i) {
        lemma_find_crlf_bounds(s, i + 1);
    }
}

proof fn lemma_find_crlf_prefix(t: Seq<u8>, b: Seq<u8>, i: int)
    requires
        is_prefix(t, b),
        0 <= i,
    ensures
        find_crlf(t, i) >= 0 ==> find_crlf(b, i) == find_crlf(t, i),
    decreases t.len() - i,
{
    if i + 1 < t.len() {
        assert(t[i] == b[i] && t[i + 1] == b[i + 1]);
        if !crlf_at(t, i) {
            lemma_find_crlf_prefix(t, b, i + 1);
        }
    }
}

proof fn lemma_line_prefix(t: Seq<u8>, b: Seq<u8>, p: int)
    requires
        is_prefix(t, b),
        0 <= p,
    ensures
        line_at(t, p) is Done ==> line_at(b, p) == line_at(t, p),
        line_at(t, p) is Done ==> p + 2 <= line_at(t, p)->Done_1 <= t.len(),
        decimal_at(t, p) is Done ==> decimal_at(b, p) == decimal_at(t, p),
        decimal_at(t, p) is Done ==> p + 2 <= decimal_at(t, p)->Done_1 <= t.len(),
        decimal_at(t, p) is Invalid ==> decimal_at(b, p) is Invalid,
{
    lemma_find_crlf_prefix(t, b, p);
    lemma_find_crlf_bounds(t, p);
    let e = find_crlf(t, p);
    if e >= 0 {
        assert(b.subrange(p, e) =~= t.subrange(p, e));
    }
}

/// What the bulk frame at `p` of a prefix reads as, the whole buffer reads
/// as too, unless the prefix ends right after the payload.
proof fn lemma_bulk_prefix(t: Seq<u8>, b: Seq<u8>, p: int, follower: bool)
    requires
        is_prefix(t, b),
        0 <= p,
    ensures
        bulk_at(t, p, follower) is Invalid ==> bulk_at(b, p, follower) is Invalid,
        bulk_at(t, p, follower) is Done ==> p < bulk_at(t, p, follower)->Done_1 <= t.len(),
        bulk_at(t, p, follower) is Done && (bulk_at(t, p, follower)->Done_1 < t.len() || !follower)
            ==> bulk_at(b, p, follower) == bulk_at(
            t,
            p, follower),
{
    lemma_line_prefix(t, b, p);
    if p < t.len() {
        assert(t[p] == b[p]);
        match decimal_at(t, p) {
            Scan::Done(n, q) => {
                if q + n < t.len() {
                    assert(t[q + n] == b[q + n]);
                }
                if q + n + 1 < t.len() {
                    assert(t[q + n + 1] == b[q + n + 1]);
                }
                if q + n <= t.len() {
                    assert(b.subrange(q, q + n) =~= t.subrange(q, q + n));
                }
            },
            _ => {},
        }
    }
}

proof fn lemma_check_bounds(s: Seq<u8>, p: int, follower: bool)
    requires
        0 <= p,
    ensures
        check_frame(s, p, follower) is Done ==> p < check_frame(s, p, follower)->Done_1 <= s.len(),
    decreases s.len() - p, 0int,
{
    if p < s.len() {
        lemma_line_prefix(s, s, p + 1);
        lemma_bulk_prefix(s, s, p + 1, follower);
        if s[p] == 42u8 {
            match decimal_at(s, p + 1) {
                Scan::Done(n, q) => {
                    if p < q <= s.len() {
                        lemma_check_elems_bounds(s, q, n as nat, follower);
                    }
                },
                _ => {},
            }
        }
    }
}

proof fn lemma_check_elems_bounds(s: Seq<u8>, p: int, n: nat, follower: bool)
    requires
        0 <= p <= s.len(),
    ensures
        check_elems(s, p, n, follower) is Done ==> p <= check_elems(s, p, n, follower)->Done_1 <= s.len(),
    decreases s.len() - p, 1int,
{
    if n > 0 {
        lemma_check_bounds(s, p, follower);
        match check_frame(s, p, follower) {
            Scan::Done(_, e) => {
                if p < e <= s.len() {
                    lemma_check_elems_bounds(s, e, (n - 1) as nat, follower);
                }
            },
            _ => {},
        }
    }
}

/// A prefix found invalid stays invalid as bytes arrive, and a frame that
/// ends before the end of a prefix ends there in the whole buffer too.
proof fn lemma_check_prefix(t: Seq<u8>, b: Seq<u8>, p: int, follower: bool)
    requires
        is_prefix(t, b),
        0 <= p,
    ensures
        check_frame(t, p, follower) is Invalid ==> check_frame(b, p, follower) is Invalid,
        check_frame(t, p, follower) is Done && (check_frame(t, p, follower)->Done_1 < t.len()
            || !follower) ==> check_frame(b, p, follower)
            == check_frame(t, p, follower),
    decreases t.len() - p, 0int,
{
    if p < t.len() {
        assert(t[p] == b[p]);
        lemma_line_prefix(t, b, p + 1);
        lemma_bulk_prefix(t, b, p + 1, follower);
        if t[p] == 42u8 {
            match decimal_at(t, p + 1) {
                Scan::Done(n, q) => {
                    if p < q <= t.len() {
                        lemma_check_elems_prefix(t, b, q, n as nat, follower);
                    }
                },
                _ => {},
            }
        }
    }
}

proof fn lemma_check_elems_prefix(t: Seq<u8>, b: Seq<u8>, p: int, n: nat, follower: bool)
    requires
        is_prefix(t, b),
        0 <= p <= t.len(),
    ensures
        check_elems(t, p, n, follower) is Invalid ==> check_elems(b, p, n, follower) is Invalid,
        check_elems(t, p, n, follower) is Done && (check_elems(t, p, n, follower)->Done_1 < t.len()
            || !follower) ==> check_elems(
            b,
            p,
            n, follower) == check_elems(t, p, n, follower),
    decreases t.len() - p, 1int,
{
    if n > 0 {
        lemma_check_prefix(t, b, p, follower);
        lemma_check_bounds(t, p, follower);
        match check_frame(t, p, follower) {
            Scan::Done(_, e) => {
                if e < t.len() || (!follower && e <= t.len()) {
                    lemma_check_elems_prefix(t, b, e, (n - 1) as nat, follower);
                }
                if e == t.len() && n > 1 {
                    assert(check_frame(t, e, follower) is Incomplete);
                }
            },
            _ => {},
        }
    }
}

/// While the bytes received hold no whole frame, every shorter start of them
/// is incomplete too. On a follower's stream from its leader, where a
/// snapshot may end without CR LF, such a start may instead read as a frame
/// that ends exactly where it ends.
pub proof fn law_incomplete_prefixes(b: Seq<u8>, k: int, follower: bool)
    requires
        check_frame(b, 0, follower) is Incomplete,
        0 <= k <= b.len(),
    ensures
        check_frame(b.subrange(0, k), 0, follower) is Incomplete || (follower && check_frame(
            b.subrange(0, k),
            0,
            follower,
        ) is Done && check_frame(b.subrange(0, k), 0, follower)->Done_1 == k),
{
    let t = b.subrange(0, k);
    assert(is_prefix(t, b));
    lemma_check_prefix(t, b, 0, follower);
    lemma_check_bounds(t, 0, follower);
}

/// Where reading finds a whole frame, checking finds it too, ending at the
/// same place.
proof fn lemma_parse_checks(s: Seq<u8>, p: int, follower: bool)
    requires
        0 <= p,
    ensures
        parse_frame(s, p, follower) is Done ==> check_frame(s, p, follower) == Scan::Done(
            (),
            parse_frame(s, p, follower)->Done_1,
        ),
    decreases s.len() - p, 0int,
{
    if p < s.len() && s[p] == 42u8 {
        match decimal_at(s, p + 1) {
            Scan::Done(n, q) => {
                if p < q <= s.len() {
                    lemma_parse_elems_checks(s, q, n as nat, Seq::empty(), follower);
                }
            },
            _ => {},
        }
    }
}

proof fn lemma_parse_elems_checks(s: Seq<u8>, p: int, n: nat, acc: Seq<FrameModel>, follower: bool)
    requires
        0 <= p <= s.len(),
    ensures
        parse_elems(s, p, n, acc, follower) is Done ==> check_elems(s, p, n, follower) == Scan::Done(
            (),
            parse_elems(s, p, n, acc, follower)->Done_1,
        ),
    decreases s.len() - p, 1int,
{
    if n > 0 {
        lemma_parse_checks(s, p, follower);
        match parse_frame(s, p, follower) {
            Scan::Done(f, e) => {
                if p < e <= s.len() {
                    lemma_parse_elems_checks(s, e, (n - 1) as nat, acc.push(f), follower);
                }
            },
            _ => {},
        }
    }
}

/// Checking the bytes an accepted frame is written as, whatever follows
/// them, finds a whole frame that ends exactly where those bytes end.
pub proof fn law_check_encoding(f: Frame, rest: Seq<u8>, follower: bool)
    requires
        accepted(f@),
    ensures
        check_frame(encoding(f@) + rest, 0, follower) == Scan::Done((), encoding(f@).len() as int),
{
    let s = encoding(f@) + rest;
    assert(s.subrange(0, encoding(f@).len() as int) =~= encoding(f@));
    lemma_parse_encoding(f@, s, 0, follower);
    lemma_parse_checks(s, 0, follower);
}

/// `s` ends at or after `p` but before the end of `t`, and what it holds
/// from `p` on is the start of `t`.
pub open spec fn cut_at(s: Seq<u8>, p: int, t: Seq<u8>) -> bool {
    &&& 0 <= p <= s.len() < p + t.len()
    &&& forall|i: int| p <= i < s.len() ==> #[trigger] s[i] == t[i - p]
}

proof fn lemma_find_crlf_none(s: Seq<u8>, i: int)
    requires
        0 <= i,
        forall|j: int| i <= j ==> !crlf_at(s, j),
    ensures
        find_crlf(s, i) == -1,
    decreases s.len() - i,
{
    if i + 1 < s.len() {
        lemma_find_crlf_none(s, i + 1);
    }
}

/// A line cut before its CR LF is incomplete.
proof fn lemma_line_cut(s: Seq<u8>, p: int, c: Seq<u8>)
    requires
        no_crlf(c),
        cut_at(s, p, c + crlf()),
    ensures
        line_at(s, p) is Incomplete,
        decimal_at(s, p) is Incomplete,
{
    let t = c + crlf();
    assert forall|j: int| p <= j implies !crlf_at(s, j) by {
        if crlf_at(s, j) {
            assert(s[j] == t[j - p]);
            assert(s[j + 1] == t[j + 1 - p]);
            if j + 1 - p < c.len() {
                assert(t[j - p] == c[j - p] && t[j + 1 - p] == c[j + 1 - p]);
            }
        }
    }
    lemma_find_crlf_none(s, p);
}

/// A part of what stands at `p` that reaches past the end of `s` is cut there.
proof fn lemma_cut_part(s: Seq<u8>, p: int, t: Seq<u8>, i: int, j: int)
    requires
        cut_at(s, p, t),
        0 <= i <= j <= t.len(),
        p + i <= s.len() < p + j,
    ensures
        cut_at(s, p + i, t.subrange(i, j)),
{
    assert forall|k: int| p + i <= k < s.len() implies s[k] == #[trigger] t.subrange(i, j)[k - (p
        + i)] by {
        assert(s[k] == t[k - p]);
    }
}

/// A part of what stands at `p` that ends within `s` stands there whole.
proof fn lemma_cut_whole(s: Seq<u8>, p: int, t: Seq<u8>, i: int, j: int)
    requires
        cut_at(s, p, t),
        0 <= i <= j <= t.len(),
        p + j <= s.len(),
    ensures
        holds_at(s, p + i, t.subrange(i, j)),
{
    assert forall|k: int| 0 <= k < j - i implies s.subrange(p + i, p + j)[k] == t.subrange(
        i,
        j,
    )[k] by {
        assert(s[p + i + k] == t[i + k]);
    }
    assert(s.subrange(p + i, p + j) =~= t.subrange(i, j));
}

/// On a client connection, bytes that stop before the end of an accepted
/// frame's bytes check as incomplete.
proof fn lemma_cut_incomplete(m: FrameModel, s: Seq<u8>, p: int)
    requires
        accepted(m),
        cut_at(s, p, encoding(m)),
    ensures
        check_frame(s, p, false) is Incomplete,
    decreases m, 0nat,
{
    let t = encoding(m);
    if p < s.len() {
        assert(s[p] == t[0]);
        match m {
            FrameModel::Simple(c) => {
                let b = encode_utf8(c);
                assert(t =~= seq![43u8] + (b + crlf()));
                lemma_cut_part(s, p, t, 1, t.len() as int);
                assert(t.subrange(1, t.len() as int) =~= b + crlf());
                lemma_line_cut(s, p + 1, b);
            },
            FrameModel::Error(c) => {
                let b = encode_utf8(c);
                assert(t =~= seq![45u8] + (b + crlf()));
                lemma_cut_part(s, p, t, 1, t.len() as int);
                assert(t.subrange(1, t.len() as int) =~= b + crlf());
                lemma_line_cut(s, p + 1, b);
            },
            FrameModel::Integer(n) => {
                let d = decimal_digits(n as nat);
                lemma_decimal_digits(n as nat);
                assert(t =~= seq![58u8] + (d + crlf()));
                lemma_cut_part(s, p, t, 1, t.len() as int);
                assert(t.subrange(1, t.len() as int) =~= d + crlf());
                assert(no_crlf(d)) by {
                    assert forall|i: int| 0 <= i < d.len() - 1 implies !(#[trigger] d[i] == 13u8
                        && d[i + 1] == 10u8) by {
                        assert(is_digit(d[i]));
                    }
                }
                lemma_line_cut(s, p + 1, d);
            },
            FrameModel::Null => {
                if p + 1 < s.len() {
                    let c = seq![45u8, 49u8];
                    assert(t =~= seq![36u8] + (c + crlf()));
                    lemma_cut_part(s, p, t, 1, t.len() as int);
                    assert(t.subrange(1, t.len() as int) =~= c + crlf());
                    assert(s[p + 1] == t[1]);
                    lemma_line_cut(s, p + 1, c);
                }
            },
            FrameModel::Bulk(b) => {
                let n = b.len() as u64;
                let d = decimal_digits(n as nat);
                lemma_decimal_digits(n as nat);
                let q = p + 1 + d.len() + 2;
                assert(t =~= seq![36u8] + (d + crlf()) + (b + crlf()));
                if p + 1 < s.len() {
                    assert(s[p + 1] == t[1]);
                    assert(t[1] == d[0]);
                    assert(is_digit(d[0]));
                    assert(t.subrange(1, 1 + (d + crlf()).len() as int) =~= d + crlf());
                    if s.len() < q {
                        lemma_cut_part(s, p, t, 1, 1 + (d + crlf()).len() as int);
                        assert(no_crlf(d)) by {
                            assert forall|i: int| 0 <= i < d.len() - 1 implies !(#[trigger] d[i]
                                == 13u8 && d[i + 1] == 10u8) by {
                                assert(is_digit(d[i]));
                            }
                        }
                        lemma_line_cut(s, p + 1, d);
                    } else {
                        lemma_cut_whole(s, p, t, 1, 1 + (d + crlf()).len() as int);
                        lemma_decimal_line(s, p + 1, n);
                    }
                }
            },
            FrameModel::Array(items) => {
                let k = items.len() as u64;
                let d = decimal_digits(k as nat);
                lemma_decimal_digits(k as nat);
                let body = encode_all(items);
                let q = p + 1 + d.len() + 2;
                assert(t =~= seq![42u8] + (d + crlf()) + body);
                assert(t.subrange(1, 1 + (d + crlf()).len() as int) =~= d + crlf());
                if p + 1 <= s.len() {
                    if s.len() < q {
                        lemma_cut_part(s, p, t, 1, 1 + (d + crlf()).len() as int);
                        assert(no_crlf(d)) by {
                            assert forall|i: int| 0 <= i < d.len() - 1 implies !(#[trigger] d[i]
                                == 13u8 && d[i + 1] == 10u8) by {
                                assert(is_digit(d[i]));
                            }
                        }
                        lemma_line_cut(s, p + 1, d);
                    } else {
                        lemma_cut_whole(s, p, t, 1, 1 + (d + crlf()).len() as int);
                        lemma_decimal_line(s, p + 1, k);
                        lemma_cut_part(s, p, t, q - p, t.len() as int);
                        assert(t.subrange(q - p, t.len() as int) =~= body);
                        assert(items.subrange(0, 0) =~= Seq::<FrameModel>::empty());
                        lemma_cut_elems(items, s, q, 0);
                    }
                }
            },
            FrameModel::OK => {
                let c = seq![79u8, 75u8];
                assert(t =~= seq![43u8] + (c + crlf()));
                lemma_cut_part(s, p, t, 1, t.len() as int);
                assert(t.subrange(1, t.len() as int) =~= c + crlf());
                lemma_line_cut(s, p + 1, c);
            },
            _ => {},
        }
    }
}

/// The elements of an accepted array, from the `j`-th on, when the bytes
/// stop before the end of the array's bytes.
proof fn lemma_cut_elems(items: Seq<FrameModel>, s: Seq<u8>, q: int, j: int)
    requires
        0 <= j <= items.len(),
        forall|i: int| 0 <= i < items.len() ==> accepted(#[trigger] items[i]),
        cut_at(s, q, encode_all(items)),
        q + encode_all(items.subrange(0, j)).len() <= s.len(),
    ensures
        check_elems(
            s,
            q + encode_all(items.subrange(0, j)).len(),
            (items.len() - j) as nat,
            false,
        ) is Incomplete,
    decreases items, items.len() - j,
{
    let all = encode_all(items);
    lemma_encode_all_prefix(items, j);
    if j == items.len() {
        assert(items.subrange(0, j) =~= items);
    } else {
        let pre = encode_all(items.subrange(0, j));
        let f = items[j];
        lemma_encode_all_step(items, j);
        lemma_encode_all_prefix(items, j + 1);
        let pj = q + pre.len();
        let next = encode_all(items.subrange(0, j + 1));
        assert(all.subrange(0, next.len() as int) == next);
        assert(next.subrange(pre.len() as int, next.len() as int) =~= encoding(f));
        assert(all.subrange(pre.len() as int, next.len() as int) =~= encoding(f));
        if s.len() < pj + encoding(f).len() {
            lemma_cut_part(s, q, all, pre.len() as int, next.len() as int);
            lemma_cut_incomplete(f, s, pj);
        } else {
            lemma_cut_whole(s, q, all, pre.len() as int, next.len() as int);
            lemma_parse_encoding(f, s, pj, false);
            lemma_parse_checks(s, pj, false);
            lemma_encoding_nonempty(f);
            lemma_cut_elems(items, s, q, j + 1);
        }
    }
}

/// On a client connection, every strict start of the bytes an accepted
/// frame is written as checks as incomplete: never as a frame, never as an
/// error.
pub proof fn law_strict_prefix_incomplete(f: Frame, k: int)
    requires
        accepted(f@),
        0 <= k < encoding(f@).len(),
    ensures
        check_frame(encoding(f@).subrange(0, k), 0, false) is Incomplete,
{
    let t = encoding(f@);
    let s = t.subrange(0, k);
    assert(cut_at(s, 0, t));
    lemma_cut_incomplete(f@, s, 0);
}

} // verus!
