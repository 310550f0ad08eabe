//! Discovery without configuration: a tablet asks by datagram who is there, and the server answers
//! with its port and its name.
use crate::bytes::{push_bytes, push_u16, same_bytes, u16_at, u16_le, u16_round_trip};
use crate::text::{is_blank, is_space, space_around_is_cut, trim, trimmed};
use vstd::prelude::*;

verus! {

pub const DISCOVERY_PORT: u16 = 7742;

/// What a tablet asks.
pub open spec fn request() -> Seq<u8> {
    vstd::utf8::encode_utf8("TABSCREEN?"@)
}

/// What every answer starts with.
pub open spec fn magic() -> Seq<u8> {
    vstd::utf8::encode_utf8("TABSCREEN!"@)
}

/// The answer of a server with this port and name.
pub open spec fn answer(tcp_port: u16, hostname: Seq<char>) -> Seq<u8> {
    magic() + u16_le(tcp_port) + vstd::utf8::encode_utf8(hostname)
}

/// The name of a computer, by what its system has on file.
pub open spec fn name_on_file(on_file: Option<Seq<char>>) -> Seq<char> {
    match on_file {
        Some(s) => trimmed(s),
        None => "linux"@,
    }
}

/// A name on file is used without the space around it and as it is in between; where none is on file,
/// there is a name all the same.
pub proof fn computers_have_a_name(front: Seq<char>, name: Seq<char>, back: Seq<char>)
    requires
        is_blank(front),
        is_blank(back),
        name.len() > 0,
        !is_space(name[0]),
        !is_space(name.last()),
    ensures
        name_on_file(Some(front + name + back)) == name,
        name_on_file(None) == "linux"@,
{
    space_around_is_cut(front, name, back);
}

/// The name of this computer: what the system has on file, without the space around it.
pub fn hostname(on_file: Option<&str>) -> (r: String)
    ensures
        r@ == name_on_file(
            match on_file {
                Some(s) => Some(s@),
                None => None,
            },
        ),
{
    match on_file {
        Some(s) => trim(s),
        None => "linux".to_owned(),
    }
}

/// The answer to a datagram, if it gets one.
pub open spec fn answered(datagram: Seq<u8>, tcp_port: u16, hostname: Seq<char>) -> Option<
    Seq<u8>,
> {
    if datagram == request() {
        Some(answer(tcp_port, hostname))
    } else {
        None
    }
}

/// Answers a datagram. One that is not the question exactly gets no answer.
pub fn reply(datagram: &[u8], tcp_port: u16, hostname: &str) -> (r: Option<Vec<u8>>)
    ensures
        match r {
            Some(v) => answered(datagram@, tcp_port, hostname@) == Some(v@),
            None => answered(datagram@, tcp_port, hostname@) is None,
        },
{
    if !same_bytes(datagram, "TABSCREEN?".as_bytes()) {
        return None;
    }
    let mut v: Vec<u8> = Vec::new();
    push_bytes(&mut v, "TABSCREEN!".as_bytes());
    push_u16(&mut v, tcp_port);
    push_bytes(&mut v, hostname.as_bytes());
    assert(v@ =~= answer(tcp_port, hostname@));
    Some(v)
}

/// The tablet can read the answer: behind ten bytes that it knows stand the port and the name.
pub proof fn answer_can_be_read(tcp_port: u16, hostname: Seq<char>)
    ensures
        answer(tcp_port, hostname).take(10) == magic(),
        u16_at(answer(tcp_port, hostname), 10) == tcp_port,
        vstd::utf8::decode_utf8(answer(tcp_port, hostname).skip(12)) == hostname,
{
    reveal_strlit("TABSCREEN!");
    let m = "TABSCREEN!"@;
    assert(vstd::utf8::is_ascii_chars(m));
    vstd::utf8::is_ascii_chars_encode_utf8(m);
    let a = answer(tcp_port, hostname);
    assert(a.take(10) =~= magic());
    u16_round_trip(tcp_port);
    assert(a[10] == u16_le(tcp_port)[0] && a[11] == u16_le(tcp_port)[1]);
    assert(a.skip(12) =~= vstd::utf8::encode_utf8(hostname));
    vstd::utf8::encode_utf8_decode_utf8(hostname);
}

/// A tablet that asks is answered, and reads the port and the name from the answer; whatever else
/// arrives is not answered.
pub proof fn only_the_question_is_answered(datagram: Seq<u8>, tcp_port: u16, hostname: Seq<char>)
    ensures
        answered(datagram, tcp_port, hostname) is Some <==> datagram == seq![
            0x54u8,
            0x41,
            0x42,
            0x53,
            0x43,
            0x52,
            0x45,
            0x45,
            0x4e,
            0x3f,
        ],
        answered(datagram, tcp_port, hostname) matches Some(a) ==> {
            &&& a.take(10) == seq![
                0x54u8,
                0x41,
                0x42,
                0x53,
                0x43,
                0x52,
                0x45,
                0x45,
                0x4e,
                0x21,
            ]
            &&& u16_at(a, 10) == tcp_port
            &&& vstd::utf8::decode_utf8(a.skip(12)) == hostname
        },
{
    reveal_strlit("TABSCREEN?");
    reveal_strlit("TABSCREEN!");
    let q = "TABSCREEN?"@;
    let m = "TABSCREEN!"@;
    assert(vstd::utf8::is_ascii_chars(q));
    assert(vstd::utf8::is_ascii_chars(m));
    vstd::utf8::is_ascii_chars_encode_utf8(q);
    vstd::utf8::is_ascii_chars_encode_utf8(m);
    answer_can_be_read(tcp_port, hostname);
    let asked = seq![0x54u8, 0x41, 0x42, 0x53, 0x43, 0x52, 0x45, 0x45, 0x4e, 0x3f];
    assert forall|i: int| 0 <= i < 10 implies request()[i] == asked[i] by {
        assert(q[i] as u8 == request()[i]);
    }
    assert(request() =~= asked);
    let told = seq![0x54u8, 0x41, 0x42, 0x53, 0x43, 0x52, 0x45, 0x45, 0x4e, 0x21];
    assert forall|i: int| 0 <= i < 10 implies magic()[i] == told[i] by {
        assert(m[i] as u8 == magic()[i]);
    }
    assert(magic() =~= told);
}

} // verus!
