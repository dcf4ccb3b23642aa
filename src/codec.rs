//! The wire format: a datagram's payload, and the frame that carries it.
//!
//! A frame is `src (8 bytes) | len (8 bytes) | payload (len bytes)`. The
//! payload is the datagram, tag first: each variant is a four-byte tag
//! followed by its fields in order; an optional field is a one-byte tag
//! (0 for none, 1 for some) followed by the value. Integers are fixed-width
//! and big-endian: `u32` values take four bytes, ballots two times eight.

use crate::paxos::{AcceptedProposal, Datagram, Request, Response, SequenceNumber};
use vstd::prelude::*;

verus! {

/// Frame headers are this long: the source id and the payload length.
pub const HEADER_LEN: usize = 16;

/// No payload of a datagram is longer than this.
pub const MAX_PAYLOAD_LEN: usize = 29;

/// `256` to the power `n`: the bound of a number of `n` bytes.
pub open spec fn pow256(n: nat) -> nat
    decreases n,
{
    if n == 0 {
        1
    } else {
        256 * pow256((n - 1) as nat)
    }
}

/// The `n` low-order bytes of `v`, most significant first.
pub open spec fn be_bytes(v: nat, n: nat) -> Seq<u8>
    decreases n,
{
    if n == 0 {
        Seq::empty()
    } else {
        be_bytes(v / 256, (n - 1) as nat).push((v % 256) as u8)
    }
}

/// The number that the bytes `s` write, most significant first.
pub open spec fn be_value(s: Seq<u8>) -> nat
    decreases s.len(),
{
    if s.len() == 0 {
        0
    } else {
        be_value(s.drop_last()) * 256 + s.last() as nat
    }
}

pub open spec fn u32_bytes(v: nat) -> Seq<u8> {
    be_bytes(v, 4)
}

pub open spec fn u64_bytes(v: nat) -> Seq<u8> {
    be_bytes(v, 8)
}

/// The four-byte number at position `i` of `b`.
pub open spec fn u32_at(b: Seq<u8>, i: int) -> nat {
    be_value(b.subrange(i, i + 4))
}

/// The eight-byte number at position `i` of `b`.
pub open spec fn u64_at(b: Seq<u8>, i: int) -> nat {
    be_value(b.subrange(i, i + 8))
}

pub open spec fn seq_number_bytes(s: SequenceNumber) -> Seq<u8> {
    u64_bytes(s.seq as nat) + u64_bytes(s.server_id as nat)
}

pub open spec fn accepted_bytes(a: AcceptedProposal) -> Seq<u8> {
    seq_number_bytes(a.seq) + u32_bytes(a.val as nat)
}

pub open spec fn request_bytes(r: Request) -> Seq<u8> {
    match r {
        Request::Propose { value } => u32_bytes(0) + u32_bytes(value as nat),
        Request::Prepare { seq } => u32_bytes(1) + seq_number_bytes(seq),
        Request::Accept { seq, value } => u32_bytes(2) + seq_number_bytes(seq) + u32_bytes(
            value as nat,
        ),
        Request::Learn { value } => u32_bytes(3) + u32_bytes(value as nat),
        Request::Query => u32_bytes(4),
    }
}

pub open spec fn response_bytes(r: Response) -> Seq<u8> {
    match r {
        Response::Prepare(None) => u32_bytes(0) + seq![0u8],
        Response::Prepare(Some(a)) => u32_bytes(0) + seq![1u8] + accepted_bytes(a),
        Response::Accept { seq } => u32_bytes(1) + seq_number_bytes(seq),
        Response::Query { val: None } => u32_bytes(2) + seq![0u8],
        Response::Query { val: Some(v) } => u32_bytes(2) + seq![1u8] + u32_bytes(v as nat),
    }
}

/// The payload that carries `d`.
pub open spec fn dgram_bytes(d: Datagram) -> Seq<u8> {
    match d {
        Datagram::Request(r) => u32_bytes(0) + request_bytes(r),
        Datagram::Response(r) => u32_bytes(1) + response_bytes(r),
    }
}

/// The frame that carries `d` from `src`.
pub open spec fn frame_bytes(src: usize, d: Datagram) -> Seq<u8> {
    u64_bytes(src as nat) + u64_bytes(dgram_bytes(d).len()) + dgram_bytes(d)
}

/// The ballot whose bytes start at position `i` of `b`.
pub open spec fn seq_number_at(b: Seq<u8>, i: int) -> SequenceNumber {
    SequenceNumber { seq: u64_at(b, i) as usize, server_id: u64_at(b, i + 8) as usize }
}

/// Whether the ballot at position `i` of `b` has both halves in `usize`.
pub open spec fn seq_number_fits(b: Seq<u8>, i: int) -> bool {
    u64_at(b, i) <= usize::MAX && u64_at(b, i + 8) <= usize::MAX
}

/// The request in a payload `b` whose outer tag says "request".
pub open spec fn parse_request(b: Seq<u8>) -> Option<Request> {
    if b.len() < 8 {
        None
    } else {
        let t = u32_at(b, 4);
        if t == 0 && b.len() == 12 {
            Some(Request::Propose { value: u32_at(b, 8) as u32 })
        } else if t == 1 && b.len() == 24 && seq_number_fits(b, 8) {
            Some(Request::Prepare { seq: seq_number_at(b, 8) })
        } else if t == 2 && b.len() == 28 && seq_number_fits(b, 8) {
            Some(Request::Accept { seq: seq_number_at(b, 8), value: u32_at(b, 24) as u32 })
        } else if t == 3 && b.len() == 12 {
            Some(Request::Learn { value: u32_at(b, 8) as u32 })
        } else if t == 4 && b.len() == 8 {
            Some(Request::Query)
        } else {
            None
        }
    }
}

/// The response in a payload `b` whose outer tag says "response".
pub open spec fn parse_response(b: Seq<u8>) -> Option<Response> {
    if b.len() < 9 {
        None
    } else {
        let t = u32_at(b, 4);
        if t == 0 && b.len() == 9 && b[8] == 0 {
            Some(Response::Prepare(None))
        } else if t == 0 && b.len() == 29 && b[8] == 1 && seq_number_fits(b, 9) {
            Some(
                Response::Prepare(
                    Some(AcceptedProposal { seq: seq_number_at(b, 9), val: u32_at(b, 25) as u32 }),
                ),
            )
        } else if t == 1 && b.len() == 24 && seq_number_fits(b, 8) {
            Some(Response::Accept { seq: seq_number_at(b, 8) })
        } else if t == 2 && b.len() == 9 && b[8] == 0 {
            Some(Response::Query { val: None })
        } else if t == 2 && b.len() == 13 && b[8] == 1 {
            Some(Response::Query { val: Some(u32_at(b, 9) as u32) })
        } else {
            None
        }
    }
}

/// The datagram that the payload `b` holds, if it holds one.
pub open spec fn parse_dgram(b: Seq<u8>) -> Option<Datagram> {
    if b.len() < 4 {
        None
    } else if u32_at(b, 0) == 0 {
        match parse_request(b) {
            Some(r) => Some(Datagram::Request(r)),
            None => None,
        }
    } else if u32_at(b, 0) == 1 {
        match parse_response(b) {
            Some(r) => Some(Datagram::Response(r)),
            None => None,
        }
    } else {
        None
    }
}

/// The source id and payload length in a frame header, where the length is
/// one that a payload can have.
pub open spec fn parse_header(h: Seq<u8>) -> Option<(usize, usize)> {
    if h.len() != HEADER_LEN || u64_at(h, 0) > usize::MAX || u64_at(h, 8) > MAX_PAYLOAD_LEN {
        None
    } else {
        Some((u64_at(h, 0) as usize, u64_at(h, 8) as usize))
    }
}

/// The source id and datagram that the frame `b` carries, if it is one.
pub open spec fn parse_frame(b: Seq<u8>) -> Option<(usize, Datagram)> {
    if b.len() < HEADER_LEN {
        None
    } else {
        match parse_header(b.subrange(0, HEADER_LEN as int)) {
            None => None,
            Some((src, len)) => if b.len() == HEADER_LEN + len {
                match parse_dgram(b.subrange(HEADER_LEN as int, b.len() as int)) {
                    Some(d) => Some((src, d)),
                    None => None,
                }
            } else {
                None
            },
        }
    }
}


pub broadcast proof fn lemma_be_bytes_len(v: nat, n: nat)
    ensures
        #[trigger] be_bytes(v, n).len() == n,
    decreases n,
{
    if n > 0 {
        lemma_be_bytes_len(v / 256, (n - 1) as nat);
    }
}

/// A number below `256^n` reads back from its `n` bytes.
pub proof fn lemma_be_value_of_bytes(v: nat, n: nat)
    requires
        v < pow256(n),
    ensures
        be_value(be_bytes(v, n)) == v,
    decreases n,
{
    if n > 0 {
        let m = (n - 1) as nat;
        let p = pow256(m);
        assert(v / 256 < p) by (nonlinear_arith)
            requires
                v < 256 * p,
        ;
        lemma_be_value_of_bytes(v / 256, m);
        lemma_be_bytes_len(v / 256, m);
        let s = be_bytes(v, n);
        assert(s.drop_last() =~= be_bytes(v / 256, m));
        assert(v == (v / 256) * 256 + v % 256) by (nonlinear_arith);
    }
}

/// Bytes are the bytes of the number they write.
pub proof fn lemma_bytes_of_be_value(s: Seq<u8>)
    ensures
        be_bytes(be_value(s), s.len()) =~= s,
        be_value(s) < pow256(s.len()),
    decreases s.len(),
{
    if s.len() > 0 {
        let t = s.drop_last();
        lemma_bytes_of_be_value(t);
        let x = be_value(t);
        let r = s.last() as nat;
        let v = x * 256 + r;
        assert(v / 256 == x && v % 256 == r) by (nonlinear_arith)
            requires
                v == x * 256 + r,
                r < 256,
        ;
        assert(v < 256 * pow256(t.len())) by (nonlinear_arith)
            requires
                v == x * 256 + r,
                r < 256,
                x < pow256(t.len()),
        ;
        assert(s =~= t.push(s.last()));
    }
}

proof fn lemma_pow256_values()
    ensures
        pow256(1) == 0x100,
        pow256(4) == 0x1_0000_0000,
        pow256(8) == 0x1_0000_0000_0000_0000,
{
    reveal_with_fuel(pow256, 9);
}


proof fn lemma_u32_field(b: Seq<u8>, i: int, v: nat)
    requires
        0 <= i,
        i + 4 <= b.len(),
        b.subrange(i, i + 4) == u32_bytes(v),
        v < 0x1_0000_0000,
    ensures
        u32_at(b, i) == v,
{
    lemma_pow256_values();
    lemma_be_value_of_bytes(v, 4);
}

proof fn lemma_u64_field(b: Seq<u8>, i: int, v: nat)
    requires
        0 <= i,
        i + 8 <= b.len(),
        b.subrange(i, i + 8) == u64_bytes(v),
        v < 0x1_0000_0000_0000_0000,
    ensures
        u64_at(b, i) == v,
{
    lemma_pow256_values();
    lemma_be_value_of_bytes(v, 8);
}

proof fn lemma_seq_number_field(b: Seq<u8>, i: int, s: SequenceNumber)
    requires
        0 <= i,
        i + 16 <= b.len(),
        b.subrange(i, i + 16) == seq_number_bytes(s),
    ensures
        seq_number_fits(b, i),
        seq_number_at(b, i) == s,
{
    broadcast use lemma_be_bytes_len;

    let w = b.subrange(i, i + 16);
    assert(b.subrange(i, i + 8) =~= w.subrange(0, 8));
    assert(b.subrange(i + 8, i + 16) =~= w.subrange(8, 16));
    assert(w.subrange(0, 8) =~= u64_bytes(s.seq as nat));
    assert(w.subrange(8, 16) =~= u64_bytes(s.server_id as nat));
    lemma_u64_field(b, i, s.seq as nat);
    lemma_u64_field(b, i + 8, s.server_id as nat);
}

/// A request payload reads back as the request.
proof fn lemma_request_round_trip(r: Request)
    ensures
        parse_dgram(dgram_bytes(Datagram::Request(r))) == Some(Datagram::Request(r)),
{
    broadcast use lemma_be_bytes_len;

    let b = dgram_bytes(Datagram::Request(r));
    assert(b.subrange(0, 4) =~= u32_bytes(0));
    lemma_u32_field(b, 0, 0);
    match r {
        Request::Propose { value } => {
            assert(b.subrange(4, 8) =~= u32_bytes(0));
            lemma_u32_field(b, 4, 0);
            assert(b.subrange(8, 12) =~= u32_bytes(value as nat));
            lemma_u32_field(b, 8, value as nat);
        },
        Request::Prepare { seq } => {
            assert(b.subrange(4, 8) =~= u32_bytes(1));
            lemma_u32_field(b, 4, 1);
            assert(b.subrange(8, 24) =~= seq_number_bytes(seq));
            lemma_seq_number_field(b, 8, seq);
        },
        Request::Accept { seq, value } => {
            assert(b.subrange(4, 8) =~= u32_bytes(2));
            lemma_u32_field(b, 4, 2);
            assert(b.subrange(8, 24) =~= seq_number_bytes(seq));
            lemma_seq_number_field(b, 8, seq);
            assert(b.subrange(24, 28) =~= u32_bytes(value as nat));
            lemma_u32_field(b, 24, value as nat);
        },
        Request::Learn { value } => {
            assert(b.subrange(4, 8) =~= u32_bytes(3));
            lemma_u32_field(b, 4, 3);
            assert(b.subrange(8, 12) =~= u32_bytes(value as nat));
            lemma_u32_field(b, 8, value as nat);
        },
        Request::Query => {
            assert(b.subrange(4, 8) =~= u32_bytes(4));
            lemma_u32_field(b, 4, 4);
        },
    }
}

/// A response payload reads back as the response.
proof fn lemma_response_round_trip(r: Response)
    ensures
        parse_dgram(dgram_bytes(Datagram::Response(r))) == Some(Datagram::Response(r)),
{
    broadcast use lemma_be_bytes_len;

    let b = dgram_bytes(Datagram::Response(r));
    assert(b.subrange(0, 4) =~= u32_bytes(1));
    lemma_u32_field(b, 0, 1);
    match r {
        Response::Prepare(None) => {
            assert(b.subrange(4, 8) =~= u32_bytes(0));
            lemma_u32_field(b, 4, 0);
        },
        Response::Prepare(Some(a)) => {
            assert(b.subrange(4, 8) =~= u32_bytes(0));
            lemma_u32_field(b, 4, 0);
            assert(b.subrange(9, 25) =~= seq_number_bytes(a.seq));
            lemma_seq_number_field(b, 9, a.seq);
            assert(b.subrange(25, 29) =~= u32_bytes(a.val as nat));
            lemma_u32_field(b, 25, a.val as nat);
        },
        Response::Accept { seq } => {
            assert(b.subrange(4, 8) =~= u32_bytes(1));
            lemma_u32_field(b, 4, 1);
            assert(b.subrange(8, 24) =~= seq_number_bytes(seq));
            lemma_seq_number_field(b, 8, seq);
        },
        Response::Query { val: None } => {
            assert(b.subrange(4, 8) =~= u32_bytes(2));
            lemma_u32_field(b, 4, 2);
        },
        Response::Query { val: Some(v) } => {
            assert(b.subrange(4, 8) =~= u32_bytes(2));
            lemma_u32_field(b, 4, 2);
            assert(b.subrange(9, 13) =~= u32_bytes(v as nat));
            lemma_u32_field(b, 9, v as nat);
        },
    }
}

/// Every datagram reads back from its payload.
pub proof fn lemma_dgram_round_trip(d: Datagram)
    ensures
        parse_dgram(dgram_bytes(d)) == Some(d),
{
    match d {
        Datagram::Request(r) => lemma_request_round_trip(r),
        Datagram::Response(r) => lemma_response_round_trip(r),
    }
}


proof fn lemma_u32_read(b: Seq<u8>, i: int)
    requires
        0 <= i,
        i + 4 <= b.len(),
    ensures
        u32_at(b, i) < 0x1_0000_0000,
        u32_bytes(u32_at(b, i)) == b.subrange(i, i + 4),
{
    lemma_pow256_values();
    lemma_bytes_of_be_value(b.subrange(i, i + 4));
}

proof fn lemma_u64_read(b: Seq<u8>, i: int)
    requires
        0 <= i,
        i + 8 <= b.len(),
    ensures
        u64_at(b, i) < 0x1_0000_0000_0000_0000,
        u64_bytes(u64_at(b, i)) == b.subrange(i, i + 8),
{
    lemma_pow256_values();
    lemma_bytes_of_be_value(b.subrange(i, i + 8));
}

proof fn lemma_seq_number_read(b: Seq<u8>, i: int)
    requires
        0 <= i,
        i + 16 <= b.len(),
        seq_number_fits(b, i),
    ensures
        seq_number_bytes(seq_number_at(b, i)) == b.subrange(i, i + 16),
{
    lemma_u64_read(b, i);
    lemma_u64_read(b, i + 8);
    assert(b.subrange(i, i + 16) =~= b.subrange(i, i + 8) + b.subrange(i + 8, i + 16));
}

/// Only the payload of a datagram reads as that datagram.
pub proof fn lemma_parse_dgram_exact(b: Seq<u8>)
    requires
        parse_dgram(b) is Some,
    ensures
        dgram_bytes(parse_dgram(b)->0) == b,
{
    lemma_u32_read(b, 0);
    lemma_u32_read(b, 4);
    let t = u32_at(b, 4);
    let head = b.subrange(0, 4) + b.subrange(4, 8);
    if u32_at(b, 0) == 0 {
        if t == 0 || t == 3 {
            lemma_u32_read(b, 8);
            assert(b =~= head + b.subrange(8, 12));
        } else if t == 1 {
            lemma_seq_number_read(b, 8);
            assert(b =~= head + b.subrange(8, 24));
        } else if t == 2 {
            lemma_seq_number_read(b, 8);
            lemma_u32_read(b, 24);
            assert(b =~= head + b.subrange(8, 24) + b.subrange(24, 28));
        } else {
            assert(b =~= head);
        }
    } else {
        if t == 0 && b.len() == 9 {
            assert(b =~= head + seq![0u8]);
        } else if t == 0 {
            lemma_seq_number_read(b, 9);
            lemma_u32_read(b, 25);
            assert(b =~= head + seq![1u8] + b.subrange(9, 25) + b.subrange(25, 29));
        } else if t == 1 {
            lemma_seq_number_read(b, 8);
            assert(b =~= head + b.subrange(8, 24));
        } else if b.len() == 9 {
            assert(b =~= head + seq![0u8]);
        } else {
            lemma_u32_read(b, 9);
            assert(b =~= head + seq![1u8] + b.subrange(9, 13));
        }
    }
}

/// A payload is never longer than `MAX_PAYLOAD_LEN`.
pub proof fn lemma_dgram_bytes_len(d: Datagram)
    ensures
        4 <= dgram_bytes(d).len() <= MAX_PAYLOAD_LEN,
{
    broadcast use lemma_be_bytes_len;

}

/// A frame reads back as its source id and datagram.
pub proof fn lemma_frame_round_trip(src: usize, d: Datagram)
    ensures
        parse_frame(frame_bytes(src, d)) == Some((src, d)),
{
    broadcast use lemma_be_bytes_len;

    let p = dgram_bytes(d);
    let b = frame_bytes(src, d);
    lemma_dgram_bytes_len(d);
    let h = b.subrange(0, HEADER_LEN as int);
    assert(h.subrange(0, 8) =~= u64_bytes(src as nat));
    assert(h.subrange(8, 16) =~= u64_bytes(p.len()));
    lemma_u64_field(h, 0, src as nat);
    lemma_u64_field(h, 8, p.len());
    assert(b.subrange(HEADER_LEN as int, b.len() as int) =~= p);
    lemma_dgram_round_trip(d);
}

/// Only the frame of a datagram from a source reads as that pair.
pub proof fn lemma_parse_frame_exact(b: Seq<u8>, src: usize, d: Datagram)
    requires
        parse_frame(b) == Some((src, d)),
    ensures
        frame_bytes(src, d) == b,
{
    let h = b.subrange(0, HEADER_LEN as int);
    let p = b.subrange(HEADER_LEN as int, b.len() as int);
    lemma_parse_dgram_exact(p);
    lemma_u64_read(h, 0);
    lemma_u64_read(h, 8);
    assert(b =~= h.subrange(0, 8) + h.subrange(8, 16) + p);
}


/// Relies on `bytes::BufMut::put_u32` for `Vec<u8>`: it appends the four
/// big-endian bytes of `v`.
#[verifier::external_body]
fn put_u32(buf: &mut Vec<u8>, v: u32)
    ensures
        final(buf)@ == old(buf)@ + u32_bytes(v as nat),
{
    bytes::BufMut::put_u32(buf, v)
}

/// Relies on `bytes::BufMut::put_u64` for `Vec<u8>`: it appends the eight
/// big-endian bytes of `v`.
#[verifier::external_body]
fn put_u64(buf: &mut Vec<u8>, v: u64)
    ensures
        final(buf)@ == old(buf)@ + u64_bytes(v as nat),
{
    bytes::BufMut::put_u64(buf, v)
}

/// Relies on `bytes::Buf::get_u32` for `&[u8]`: it reads the first four
/// bytes as a big-endian number (and panics on a shorter slice).
#[verifier::external_body]
fn get_u32(b: &[u8]) -> (r: u32)
    requires
        b@.len() >= 4,
    ensures
        r as nat == u32_at(b@, 0),
{
    let mut cur: &[u8] = b;
    bytes::Buf::get_u32(&mut cur)
}

/// Relies on `bytes::Buf::get_u64` for `&[u8]`: it reads the first eight
/// bytes as a big-endian number (and panics on a shorter slice).
#[verifier::external_body]
fn get_u64(b: &[u8]) -> (r: u64)
    requires
        b@.len() >= 8,
    ensures
        r as nat == u64_at(b@, 0),
{
    let mut cur: &[u8] = b;
    bytes::Buf::get_u64(&mut cur)
}

fn read_u32_at(b: &[u8], i: usize) -> (r: u32)
    requires
        i + 4 <= b.len(),
    ensures
        r as nat == u32_at(b@, i as int),
{
    let w = vstd::slice::slice_subrange(b, i, i + 4);
    assert(w@.subrange(0, 4) =~= b@.subrange(i as int, i + 4));
    get_u32(w)
}

fn read_u64_at(b: &[u8], i: usize) -> (r: u64)
    requires
        i + 8 <= b.len(),
    ensures
        r as nat == u64_at(b@, i as int),
{
    let w = vstd::slice::slice_subrange(b, i, i + 8);
    assert(w@.subrange(0, 8) =~= b@.subrange(i as int, i + 8));
    get_u64(w)
}

fn read_seq_number_at(b: &[u8], i: usize) -> (r: Option<SequenceNumber>)
    requires
        i + 16 <= b.len(),
    ensures
        r == (if seq_number_fits(b@, i as int) {
            Some(seq_number_at(b@, i as int))
        } else {
            None
        }),
{
    let seq = read_u64_at(b, i);
    let server_id = read_u64_at(b, i + 8);
    if seq <= usize::MAX as u64 && server_id <= usize::MAX as u64 {
        Some(SequenceNumber::new(server_id as usize, seq as usize))
    } else {
        None
    }
}

fn put_seq_number(buf: &mut Vec<u8>, s: SequenceNumber)
    ensures
        final(buf)@ == old(buf)@ + seq_number_bytes(s),
{
    put_u64(buf, s.seq as u64);
    put_u64(buf, s.server_id as u64);
    assert(final(buf)@ =~= old(buf)@ + seq_number_bytes(s));
}

fn put_request(buf: &mut Vec<u8>, r: Request)
    ensures
        final(buf)@ == old(buf)@ + request_bytes(r),
{
    let ghost start = buf@;
    match r {
        Request::Propose { value } => {
            put_u32(buf, 0);
            put_u32(buf, value);
        },
        Request::Prepare { seq } => {
            put_u32(buf, 1);
            put_seq_number(buf, seq);
        },
        Request::Accept { seq, value } => {
            put_u32(buf, 2);
            put_seq_number(buf, seq);
            put_u32(buf, value);
        },
        Request::Learn { value } => {
            put_u32(buf, 3);
            put_u32(buf, value);
        },
        Request::Query => {
            put_u32(buf, 4);
        },
    }
    assert(buf@ =~= start + request_bytes(r));
}

fn put_response(buf: &mut Vec<u8>, r: Response)
    ensures
        final(buf)@ == old(buf)@ + response_bytes(r),
{
    let ghost start = buf@;
    match r {
        Response::Prepare(accepted) => {
            put_u32(buf, 0);
            match accepted {
                None => buf.push(0),
                Some(a) => {
                    buf.push(1);
                    put_seq_number(buf, a.seq);
                    put_u32(buf, a.val);
                },
            }
        },
        Response::Accept { seq } => {
            put_u32(buf, 1);
            put_seq_number(buf, seq);
        },
        Response::Query { val } => {
            put_u32(buf, 2);
            match val {
                None => buf.push(0),
                Some(v) => {
                    buf.push(1);
                    put_u32(buf, v);
                },
            }
        },
    }
    assert(buf@ =~= start + response_bytes(r));
}

impl Datagram {
    /// The payload that carries this datagram.
    pub fn encode(&self) -> (r: Vec<u8>)
        ensures
            r@ == dgram_bytes(*self),
    {
        let mut buf: Vec<u8> = Vec::new();
        match *self {
            Datagram::Request(req) => {
                put_u32(&mut buf, 0);
                put_request(&mut buf, req);
            },
            Datagram::Response(resp) => {
                put_u32(&mut buf, 1);
                put_response(&mut buf, resp);
            },
        }
        assert(buf@ =~= dgram_bytes(*self));
        buf
    }

    /// The frame that carries this datagram from replica `src`.
    pub fn encode_with_src(&self, src: usize) -> (r: Vec<u8>)
        ensures
            r@ == frame_bytes(src, *self),
    {
        let data = self.encode();
        proof {
            lemma_dgram_bytes_len(*self);
        }
        let mut buf: Vec<u8> = Vec::new();
        put_u64(&mut buf, src as u64);
        put_u64(&mut buf, data.len() as u64);
        buf.extend_from_slice(data.as_slice());
        assert(buf@ =~= frame_bytes(src, *self));
        buf
    }
}

fn decode_request(b: &[u8]) -> (r: Option<Request>)
    ensures
        r == parse_request(b@),
{
    let n = b.len();
    if n < 8 {
        return None;
    }
    let t = read_u32_at(b, 4);
    if t == 0 && n == 12 {
        Some(Request::Propose { value: read_u32_at(b, 8) })
    } else if t == 1 && n == 24 {
        match read_seq_number_at(b, 8) {
            Some(seq) => Some(Request::Prepare { seq }),
            None => None,
        }
    } else if t == 2 && n == 28 {
        match read_seq_number_at(b, 8) {
            Some(seq) => Some(Request::Accept { seq, value: read_u32_at(b, 24) }),
            None => None,
        }
    } else if t == 3 && n == 12 {
        Some(Request::Learn { value: read_u32_at(b, 8) })
    } else if t == 4 && n == 8 {
        Some(Request::Query)
    } else {
        None
    }
}

fn decode_response(b: &[u8]) -> (r: Option<Response>)
    ensures
        r == parse_response(b@),
{
    let n = b.len();
    if n < 9 {
        return None;
    }
    let t = read_u32_at(b, 4);
    let flag = b[8];
    if t == 0 && n == 9 && flag == 0 {
        Some(Response::Prepare(None))
    } else if t == 0 && n == 29 && flag == 1 {
        match read_seq_number_at(b, 9) {
            Some(seq) => Some(
                Response::Prepare(Some(AcceptedProposal::new(seq, read_u32_at(b, 25)))),
            ),
            None => None,
        }
    } else if t == 1 && n == 24 {
        match read_seq_number_at(b, 8) {
            Some(seq) => Some(Response::Accept { seq }),
            None => None,
        }
    } else if t == 2 && n == 9 && flag == 0 {
        Some(Response::Query { val: None })
    } else if t == 2 && n == 13 && flag == 1 {
        Some(Response::Query { val: Some(read_u32_at(b, 9)) })
    } else {
        None
    }
}

/// The datagram in the payload `b`: there is one exactly when `b` is the
/// payload of some datagram.
pub fn decode_payload(b: &[u8]) -> (r: Option<Datagram>)
    ensures
        r == parse_dgram(b@),
        match r {
            Some(d) => dgram_bytes(d) == b@,
            None => forall|d: Datagram| dgram_bytes(d) != b@,
        },
{
    let r = if b.len() < 4 {
        None
    } else {
        let outer = read_u32_at(b, 0);
        if outer == 0 {
            match decode_request(b) {
                Some(req) => Some(Datagram::Request(req)),
                None => None,
            }
        } else if outer == 1 {
            match decode_response(b) {
                Some(resp) => Some(Datagram::Response(resp)),
                None => None,
            }
        } else {
            None
        }
    };
    proof {
        if r is Some {
            lemma_parse_dgram_exact(b@);
        } else {
            assert forall|d: Datagram| dgram_bytes(d) != b@ by {
                lemma_dgram_round_trip(d);
            }
        }
    }
    r
}

/// The source id and payload length in the frame header `h`; `None` where
/// `h` is not sixteen bytes long, or announces a payload that no datagram has.
pub fn decode_header(h: &[u8]) -> (r: Option<(usize, usize)>)
    ensures
        r == parse_header(h@),
{
    if h.len() != HEADER_LEN {
        return None;
    }
    let src = read_u64_at(h, 0);
    let len = read_u64_at(h, 8);
    if src > usize::MAX as u64 || len > MAX_PAYLOAD_LEN as u64 {
        None
    } else {
        Some((src as usize, len as usize))
    }
}

/// The source id and datagram that the frame `b` carries: there are some
/// exactly when `b` is the frame of a datagram from a source.
pub fn decode_frame(b: &[u8]) -> (r: Option<(usize, Datagram)>)
    ensures
        r == parse_frame(b@),
        match r {
            Some((src, d)) => frame_bytes(src, d) == b@,
            None => forall|src: usize, d: Datagram| frame_bytes(src, d) != b@,
        },
{
    let r = if b.len() < HEADER_LEN {
        None
    } else {
        match decode_header(vstd::slice::slice_subrange(b, 0, HEADER_LEN)) {
            None => None,
            Some((src, len)) => {
                if b.len() == HEADER_LEN + len {
                    match decode_payload(vstd::slice::slice_subrange(b, HEADER_LEN, b.len())) {
                        Some(d) => Some((src, d)),
                        None => None,
                    }
                } else {
                    None
                }
            },
        }
    };
    proof {
        match r {
            Some((src, d)) => lemma_parse_frame_exact(b@, src, d),
            None => {
                assert forall|src: usize, d: Datagram| frame_bytes(src, d) != b@ by {
                    lemma_frame_round_trip(src, d);
                }
            },
        }
    }
    r
}


/// Why a stream of frames cannot go on.
#[derive(Debug, Clone, Copy, PartialEq, Eq, Structural)]
pub enum FrameError {
    /// The header announces a payload longer than any datagram's.
    Header,
    /// The payload is not that of a datagram.
    Payload,
}

/// What a stream that starts with the bytes `b` yields next: nothing yet,
/// a source id and datagram with the number of bytes that carried them, or
/// an error.
pub open spec fn next_frame(b: Seq<u8>) -> Result<Option<(usize, Datagram, nat)>, FrameError> {
    if b.len() < HEADER_LEN {
        Ok(None)
    } else {
        match parse_header(b.subrange(0, HEADER_LEN as int)) {
            None => Err(FrameError::Header),
            Some((_, len)) => if b.len() < HEADER_LEN + len {
                Ok(None)
            } else {
                match parse_frame(b.subrange(0, HEADER_LEN + len)) {
                    None => Err(FrameError::Payload),
                    Some((src, d)) => Ok(Some((src, d, (HEADER_LEN + len) as nat))),
                }
            },
        }
    }
}

/// Reassembles frames from the bytes of a stream, as they arrive.
#[derive(Debug)]
pub struct Codec {
    buf: Vec<u8>,
}

impl View for Codec {
    /// The bytes received and not yet handed out as a frame.
    type V = Seq<u8>;

    closed spec fn view(&self) -> Seq<u8> {
        self.buf@
    }
}

impl Codec {
    pub fn new() -> (r: Self)
        ensures
            r@ == Seq::<u8>::empty(),
    {
        Self { buf: Vec::new() }
    }

    /// Takes the bytes `src` that arrived, and hands out the next frame if
    /// the bytes held now complete one. A frame handed out leaves the
    /// buffer; on an error the stream cannot be read on.
    pub fn decode(&mut self, src: &[u8]) -> (r: Result<Option<(usize, Datagram)>, FrameError>)
        ensures
            ({
                let all = old(self)@ + src@;
                match next_frame(all) {
                    Ok(None) => {
                        &&& r == Ok::<Option<(usize, Datagram)>, FrameError>(None)
                        &&& final(self)@ == all
                    },
                    Ok(Some((s, d, used))) => {
                        &&& r == Ok::<Option<(usize, Datagram)>, FrameError>(Some((s, d)))
                        &&& frame_bytes(s, d) == all.subrange(0, used as int)
                        &&& final(self)@ == all.subrange(used as int, all.len() as int)
                    },
                    Err(e) => {
                        &&& r == Err::<Option<(usize, Datagram)>, FrameError>(e)
                        &&& final(self)@ == all
                    },
                }
            }),
    {
        self.buf.extend_from_slice(src);
        proof {
            assert(self.buf@ =~= old(self)@ + src@);
        }
        let n = self.buf.len();
        if n < HEADER_LEN {
            return Ok(None);
        }
        let header = vstd::slice::slice_subrange(self.buf.as_slice(), 0, HEADER_LEN);
        match decode_header(header) {
            None => Err(FrameError::Header),
            Some((_, len)) => {
                if n < HEADER_LEN + len {
                    return Ok(None);
                }
                let used = HEADER_LEN + len;
                let frame = vstd::slice::slice_subrange(self.buf.as_slice(), 0, used);
                match decode_frame(frame) {
                    None => Err(FrameError::Payload),
                    Some((s, d)) => {
                        let rest = vstd::slice::slice_subrange(self.buf.as_slice(), used, n);
                        self.buf = vstd::slice::slice_to_vec(rest);
                        Ok(Some((s, d)))
                    },
                }
            },
        }
    }

    /// Appends to `dst` the frame that carries `item` from replica `src`.
    pub fn encode(&mut self, item: Datagram, src: usize, dst: &mut Vec<u8>)
        ensures
            final(self)@ == old(self)@,
            final(dst)@ == old(dst)@ + frame_bytes(src, item),
    {
        let frame = item.encode_with_src(src);
        dst.extend_from_slice(frame.as_slice());
        assert(dst@ =~= old(dst)@ + frame_bytes(src, item));
    }
}

} // verus!
