//! The protocol framer: classification of inbound byte chunks into
//! messages, and encoding of outbound messages into wire bytes.

use crate::events::{Message, Payload};
use crate::telnet::{GMCP, IAC, SB, SE};
use vstd::prelude::*;
use vstd::string::StrSliceExecFns;
use vstd::utf8::{decode_utf8, encode_utf8, valid_utf8};

verus! {

/// Carriage return, the first byte of a text line terminator.
pub const CR: u8 = 13;

/// Line feed, the second byte of a text line terminator.
pub const LF: u8 = 10;

/// The dot that separates a GMCP package from its subpackage.
pub const DOT: u8 = 46;

/// The space that separates a GMCP package path from its data.
pub const SPACE: u8 = 32;

/// What `str::trim` leaves of a string: the characters with leading and
/// trailing whitespace removed.
pub uninterp spec fn trimmed_of(s: Seq<char>) -> Seq<char>;

/// Relies on `String::from_utf8`: it succeeds exactly on valid UTF-8 and
/// then returns the decoded characters.
#[verifier::external_body]
fn decode_utf8_vec(bytes: Vec<u8>) -> (r: Option<String>)
    ensures
        match r {
            Some(s) => valid_utf8(bytes@) && s@ == decode_utf8(bytes@),
            None => !valid_utf8(bytes@),
        },
{
    String::from_utf8(bytes).ok()
}

/// Relies on `str::trim`: the result depends on the characters alone, is
/// never longer than the input, and an empty string stays empty.
#[verifier::external_body]
fn trim_text(s: &str) -> (r: &str)
    ensures
        r@ == trimmed_of(s@),
        r@.len() <= s@.len(),
        s@.len() == 0 ==> r@ == s@,
{
    s.trim()
}

/// The trimmed text a valid non-command chunk yields.
pub open spec fn chunk_text(bytes: Seq<u8>) -> Seq<char> {
    trimmed_of(decode_utf8(bytes))
}

/// A chunk whose first byte is IAC is treated wholesale as one command.
pub open spec fn is_command_chunk(bytes: Seq<u8>) -> bool {
    bytes.len() > 0 && bytes[0] == IAC
}

/// A chunk that produces no message at all: not a command, and either not
/// valid UTF-8 (the text is dropped rather than causing an error) or
/// nothing left of its text after trimming.
pub open spec fn yields_no_message(bytes: Seq<u8>) -> bool {
    !is_command_chunk(bytes) && (!valid_utf8(bytes) || chunk_text(bytes).len() == 0)
}

/// How one inbound chunk is classified: `r` is the message, if any, that
/// the chunk produces.
pub open spec fn classifies_to(bytes: Seq<u8>, r: Option<Message>) -> bool {
    if is_command_chunk(bytes) {
        &&& r matches Some(m)
        &&& m matches Message::Command(c)
        &&& c@ == bytes
    } else if !valid_utf8(bytes) || chunk_text(bytes).len() == 0 {
        r is None
    } else {
        &&& r matches Some(m)
        &&& m matches Message::Text(s)
        &&& s@ == chunk_text(bytes)
    }
}

/// Classify one inbound read chunk into at most one message: a chunk whose
/// first byte is IAC is one opaque command covering the whole chunk;
/// anything else is decoded as text (a chunk that is not valid UTF-8
/// yields no text) and trimmed of surrounding whitespace, and an empty
/// result produces no message at all.
pub fn classify_chunk(chunk: Vec<u8>) -> (r: Option<Message>)
    requires
        chunk@.len() > 0,
    ensures
        classifies_to(chunk@, r),
{
    if chunk[0] == IAC {
        Some(Message::Command(chunk))
    } else {
        match decode_utf8_vec(chunk) {
            None => None,
            Some(s) => {
                let t = trim_text(s.as_str());
                if t.is_empty() {
                    None
                } else {
                    Some(Message::Text(t.to_owned()))
                }
            },
        }
    }
}

/// The exact wire bytes of one outbound message: text is followed by CR
/// LF, a command passes through verbatim, and a GMCP payload is framed as
/// IAC SB GMCP `package` [`.` `subpackage`] [` ` `data`] IAC SE.
pub open spec fn message_encoding(m: Message) -> Seq<u8> {
    match m {
        Message::Text(s) => encode_utf8(s@) + seq![CR, LF],
        Message::Command(c) => c@,
        Message::GMCP(p) => gmcp_encoding(p),
    }
}

/// The exact wire bytes of one GMCP subnegotiation frame.
pub open spec fn gmcp_encoding(p: Payload) -> Seq<u8> {
    seq![IAC, SB, GMCP] + encode_utf8(p.package@) + (match p.subpackage {
        Some(sp) => seq![DOT] + encode_utf8(sp@),
        None => Seq::<u8>::empty(),
    }) + (match p.data {
        Some(d) => seq![SPACE] + encode_utf8(d@),
        None => Seq::<u8>::empty(),
    }) + seq![IAC, SE]
}

/// Whether `frames` are exactly the encodings of `msgs`, in order.
pub open spec fn frames_match(msgs: Seq<Message>, frames: Seq<Vec<u8>>) -> bool {
    &&& frames.len() == msgs.len()
    &&& forall|i: int|
        0 <= i < msgs.len() ==> (#[trigger] frames[i])@ == message_encoding(msgs[i])
}

/// Encode a sequence of outbound messages, in order, into the frames
/// written to a socket.
pub fn encode_all(msgs: Vec<Message>) -> (frames: Vec<Vec<u8>>)
    ensures
        frames_match(msgs@, frames@),
{
    let ghost all = msgs@;
    let mut rest = msgs;
    let mut frames: Vec<Vec<u8>> = Vec::new();
    proof {
        assert(all.skip(0) =~= all);
    }
    while rest.len() > 0
        invariant
            frames@.len() + rest@.len() == all.len(),
            rest@ == all.skip(frames@.len() as int),
            forall|i: int|
                0 <= i < frames@.len() ==> (#[trigger] frames@[i])@ == message_encoding(all[i]),
        decreases rest@.len(),
    {
        let ghost k = frames@.len() as int;
        let m = rest.remove(0);
        proof {
            assert(m == all[k]);
        }
        let f = encode_message(m);
        frames.push(f);
        proof {
            assert(rest@ =~= all.skip(k + 1));
        }
    }
    frames
}

/// Encode one outbound message into the bytes written to the socket.
pub fn encode_message(m: Message) -> (r: Vec<u8>)
    ensures
        r@ == message_encoding(m),
{
    let ghost gm = m;
    match m {
        Message::Text(s) => {
            let mut v = s.as_str().as_bytes_vec();
            v.push(CR);
            v.push(LF);
            assert(v@ =~= message_encoding(gm));
            v
        },
        Message::Command(c) => c,
        Message::GMCP(p) => {
            let ghost gp = p;
            let mut v: Vec<u8> = Vec::new();
            v.push(IAC);
            v.push(SB);
            v.push(GMCP);
            let mut pkg = p.package.as_str().as_bytes_vec();
            v.append(&mut pkg);
            match p.subpackage {
                Some(sp) => {
                    v.push(DOT);
                    let mut b = sp.as_str().as_bytes_vec();
                    v.append(&mut b);
                },
                None => {},
            }
            match p.data {
                Some(d) => {
                    v.push(SPACE);
                    let mut b = d.as_str().as_bytes_vec();
                    v.append(&mut b);
                },
                None => {},
            }
            v.push(IAC);
            v.push(SE);
            assert(v@ =~= gmcp_encoding(gp));
            v
        },
    }
}

} // verus!
