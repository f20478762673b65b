//! The handshake that opens a connection: the client proves who it is and
//! asks for what it wants, line by line.
//!
//! Nothing here reads or writes a socket. The caller sends what it is given
//! and hands in each line that the server answers with, without the line end.

use vstd::prelude::*;
use vstd::slice::slice_subrange;
use crate::fdo::peer::{hex_digit_byte, is_hex_digit};
use crate::text::{append_bytes, ascii_string, ascii_text, bytes_eq, is_ascii_bytes};

verus! {

/// The number of hexadecimal digits in the GUID of a server.
pub const GUID_LEN: usize = 32;

/// `bytes` are the 32 hexadecimal digits of the GUID of a server, in
/// either case.
pub open spec fn is_guid(bytes: Seq<u8>) -> bool {
    &&& bytes.len() == GUID_LEN
    &&& forall|i: int| 0 <= i < bytes.len() ==> is_hex_digit(#[trigger] bytes[i])
}

/// Tells whether `bytes` are the 32 hexadecimal digits of a GUID.
pub fn check_guid(bytes: &[u8]) -> (r: bool)
    ensures
        r == is_guid(bytes@),
        r ==> is_ascii_bytes(bytes@),
{
    if bytes.len() != GUID_LEN {
        return false;
    }
    let mut i: usize = 0;
    while i < bytes.len()
        invariant
            i <= bytes.len(),
            forall|k: int| 0 <= k < i ==> is_hex_digit(#[trigger] bytes@[k]),
        decreases bytes.len() - i,
    {
        if !hex_digit_byte(bytes[i]) {
            return false;
        }
        i += 1;
    }
    true
}


/// Where a handshake stands.
#[derive(Clone, Copy, Debug, PartialEq, Eq, Structural)]
pub enum Step {
    /// `AUTH` is sent; the server has to accept it.
    WaitingForOk,
    /// `NEGOTIATE_UNIX_FD` is sent; the server has to agree or refuse.
    WaitingForAgreeUnixFd,
    /// `BEGIN` is sent: messages follow.
    Done,
    /// The server turned the client down, or said what nobody understands.
    Failed,
}

/// What the client does after a line of the server.
#[derive(Debug, PartialEq, Eq)]
pub enum Reply {
    /// It sends these bytes and waits for the next line.
    Send(Vec<u8>),
    /// It sends these bytes, and the handshake is done: the server has
    /// this identity, and file descriptors can or cannot be passed.
    Begin { bytes: Vec<u8>, guid: String, unix_fds: bool },
    /// It gives up.
    GiveUp,
}

/// A handshake under way.
#[derive(Debug, PartialEq, Eq)]
pub struct Handshake {
    pub step: Step,
    /// The client asks for file descriptors to be passed.
    pub want_fds: bool,
    /// The identity of the server, once it said `OK`: 32 hexadecimal digits.
    pub guid: Vec<u8>,
}

/// `OK `, which starts the line that accepts the client.
pub open spec fn ok_prefix() -> Seq<u8> {
    seq![0x4fu8, 0x4b, 0x20]
}

/// `AGREE_UNIX_FD`, the line that agrees to pass file descriptors.
pub open spec fn agree_line() -> Seq<u8> {
    seq![0x41u8, 0x47, 0x52, 0x45, 0x45, 0x5f, 0x55, 0x4e, 0x49, 0x58, 0x5f, 0x46, 0x44]
}

/// `ERROR`, which starts the line that refuses a command.
pub open spec fn error_prefix() -> Seq<u8> {
    seq![0x45u8, 0x52, 0x52, 0x4f, 0x52]
}

/// `NEGOTIATE_UNIX_FD` and the line end.
pub open spec fn negotiate_command() -> Seq<u8> {
    seq![
        0x4eu8, 0x45, 0x47, 0x4f, 0x54, 0x49, 0x41, 0x54, 0x45, 0x5f, 0x55, 0x4e, 0x49, 0x58, 0x5f, 0x46,
        0x44, 0x0d, 0x0a,
    ]
}

/// `BEGIN` and the line end.
pub open spec fn begin_command() -> Seq<u8> {
    seq![0x42u8, 0x45, 0x47, 0x49, 0x4e, 0x0d, 0x0a]
}

/// A zero byte and `AUTH EXTERNAL `, which open the handshake.
pub open spec fn auth_prefix() -> Seq<u8> {
    seq![
        0x00u8, 0x41, 0x55, 0x54, 0x48, 0x20, 0x45, 0x58, 0x54, 0x45, 0x52, 0x4e, 0x41, 0x4c, 0x20,
    ]
}

/// The line end.
pub open spec fn line_end() -> Seq<u8> {
    seq![0x0du8, 0x0a]
}

/// The decimal digits of `n`, each written in hexadecimal: the digit `d`
/// has the code `0x30 + d`, which is spelled `3` and `d`.
pub open spec fn hex_of_decimal(n: nat) -> Seq<u8>
    decreases n,
{
    if n < 10 {
        seq![0x33u8, (0x30 + n) as u8]
    } else {
        hex_of_decimal(n / 10) + seq![0x33u8, (0x30 + n % 10) as u8]
    }
}

/// What opens the handshake of the user with the number `uid`: a zero
/// byte, then `AUTH EXTERNAL` with the number in hexadecimal.
pub open spec fn opening(uid: u32) -> Seq<u8> {
    auth_prefix() + hex_of_decimal(uid as nat) + line_end()
}

/// The identity in a line that accepts the client: `OK ` and 32
/// hexadecimal digits.
pub open spec fn accepted_guid(line: Seq<u8>) -> Option<Seq<u8>> {
    if line.len() == 35 && line.take(3) == ok_prefix() && is_guid(line.skip(3)) {
        Some(line.skip(3))
    } else {
        None
    }
}

/// The line refuses a command: it starts with `ERROR`.
pub open spec fn is_refusal(line: Seq<u8>) -> bool {
    error_prefix().is_prefix_of(line)
}

/// What a client that stands at `step` and wants file descriptors or not
/// does after the line `line`: where it stands then, what it sends, and
/// whether the handshake is done with file descriptors agreed.
///
/// A server that refuses to pass file descriptors does not end the
/// handshake: the client begins without them.
pub open spec fn stepped(step: Step, want_fds: bool, line: Seq<u8>) -> (Step, Seq<u8>, bool) {
    match step {
        Step::WaitingForOk => match accepted_guid(line) {
            Some(_) => if want_fds {
                (Step::WaitingForAgreeUnixFd, negotiate_command(), false)
            } else {
                (Step::Done, begin_command(), false)
            },
            None => (Step::Failed, seq![], false),
        },
        Step::WaitingForAgreeUnixFd => if line == agree_line() {
            (Step::Done, begin_command(), true)
        } else if is_refusal(line) {
            (Step::Done, begin_command(), false)
        } else {
            (Step::Failed, seq![], false)
        },
        Step::Done => (Step::Failed, seq![], false),
        Step::Failed => (Step::Failed, seq![], false),
    }
}

/// Appends to `out` the decimal digits of `n`, each in hexadecimal.
fn write_hex_of_decimal(n: u32, out: &mut Vec<u8>)
    ensures
        final(out)@ == old(out)@ + hex_of_decimal(n as nat),
    decreases n,
{
    if n < 10 {
        out.push(0x33);
        out.push(0x30 + n as u8);
    } else {
        write_hex_of_decimal(n / 10, out);
        out.push(0x33);
        out.push(0x30 + (n % 10) as u8);
    }
    assert(out@ =~= old(out)@ + hex_of_decimal(n as nat));
}

fn fixed<const N: usize>(bytes: [u8; N]) -> (r: Vec<u8>)
    ensures
        r@ == bytes@,
{
    vstd::slice::slice_to_vec(bytes.as_slice())
}

fn begin_bytes() -> (r: Vec<u8>)
    ensures
        r@ == begin_command(),
{
    let r = fixed([0x42u8, 0x45, 0x47, 0x49, 0x4e, 0x0d, 0x0a]);
    assert(r@ =~= begin_command());
    r
}

fn negotiate_bytes() -> (r: Vec<u8>)
    ensures
        r@ == negotiate_command(),
{
    let r = fixed(
        [
            0x4eu8, 0x45, 0x47, 0x4f, 0x54, 0x49, 0x41, 0x54, 0x45, 0x5f, 0x55, 0x4e, 0x49, 0x58, 0x5f,
            0x46, 0x44, 0x0d, 0x0a,
        ],
    );
    assert(r@ =~= negotiate_command());
    r
}

impl Handshake {
    /// Starts the handshake of the user with the number `uid`. Gives the
    /// handshake, and the bytes that the client sends first.
    pub fn new(uid: u32, want_fds: bool) -> (r: (Handshake, Vec<u8>))
        ensures
            r.0.step == Step::WaitingForOk,
            r.0.want_fds == want_fds,
            r.0.guid@.len() == 0,
            r.1@ == opening(uid),
    {
        let mut bytes = fixed(
            [
                0x00u8, 0x41, 0x55, 0x54, 0x48, 0x20, 0x45, 0x58, 0x54, 0x45, 0x52, 0x4e, 0x41, 0x4c,
                0x20,
            ],
        );
        assert(bytes@ =~= auth_prefix());
        write_hex_of_decimal(uid, &mut bytes);
        bytes.push(0x0d);
        bytes.push(0x0a);
        assert(bytes@ =~= opening(uid));
        (Handshake { step: Step::WaitingForOk, want_fds, guid: Vec::new() }, bytes)
    }

    /// Takes a line of the server, without its line end, and says what the
    /// client does.
    pub fn line(&mut self, line: &[u8]) -> (r: Reply)
        ensures
            final(self).want_fds == old(self).want_fds,
            final(self).step == stepped(old(self).step, old(self).want_fds, line@).0,
            match old(self).step {
                Step::WaitingForOk => match accepted_guid(line@) {
                    Some(guid) => final(self).guid@ == guid,
                    None => final(self).guid@ == old(self).guid@,
                },
                _ => final(self).guid@ == old(self).guid@,
            },
            match final(self).step {
                Step::WaitingForOk => false,
                Step::WaitingForAgreeUnixFd => r matches Reply::Send(bytes) && bytes@ == stepped(
                    old(self).step,
                    old(self).want_fds,
                    line@,
                ).1,
                Step::Done => {
                    &&& r matches Reply::Begin { bytes, guid, unix_fds }
                    &&& bytes@ == begin_command()
                    &&& unix_fds == stepped(old(self).step, old(self).want_fds, line@).2
                    &&& is_guid(final(self).guid@) ==> guid@ == ascii_text(
                        final(self).guid@,
                    )
                },
                Step::Failed => r is GiveUp,
            },
    {
        match self.step {
            Step::WaitingForOk => {
                let ok: [u8; 3] = [0x4f, 0x4b, 0x20];
                assert(ok@ =~= ok_prefix());
                if line.len() == 35 && bytes_eq(slice_subrange(line, 0, 3), ok.as_slice()) {
                    assert(line@.subrange(0, 3) =~= line@.take(3));
                    let guid = slice_subrange(line, 3, 35);
                    assert(guid@ =~= line@.skip(3));
                    if check_guid(guid) {
                        self.guid = vstd::slice::slice_to_vec(guid);
                        if self.want_fds {
                            self.step = Step::WaitingForAgreeUnixFd;
                            return Reply::Send(negotiate_bytes());
                        }
                        self.step = Step::Done;
                        return Reply::Begin {
                            bytes: begin_bytes(),
                            guid: ascii_string(guid),
                            unix_fds: false,
                        };
                    }
                } else {
                    assert(line@.len() == 35 ==> line@.subrange(0, 3) =~= line@.take(3));
                }
                self.step = Step::Failed;
                Reply::GiveUp
            },
            Step::WaitingForAgreeUnixFd => {
                let agree: [u8; 13] = [
                    0x41, 0x47, 0x52, 0x45, 0x45, 0x5f, 0x55, 0x4e, 0x49, 0x58, 0x5f, 0x46, 0x44,
                ];
                assert(agree@ =~= agree_line());
                let error: [u8; 5] = [0x45, 0x52, 0x52, 0x4f, 0x52];
                assert(error@ =~= error_prefix());
                let agreed = bytes_eq(line, agree.as_slice());
                if agreed || crate::match_rule::starts_with(line, error.as_slice()) {
                    self.step = Step::Done;
                    let guid = if check_guid(self.guid.as_slice()) {
                        ascii_string(self.guid.as_slice())
                    } else {
                        String::new()
                    };
                    return Reply::Begin { bytes: begin_bytes(), guid, unix_fds: agreed };
                }
                self.step = Step::Failed;
                Reply::GiveUp
            },
            _ => {
                self.step = Step::Failed;
                Reply::GiveUp
            },
        }
    }
}

/// A server that refuses to pass file descriptors does not stop the
/// connection: after its refusal the client begins, without descriptors.
pub proof fn lemma_refusal_is_no_failure(line: Seq<u8>)
    requires
        is_refusal(line),
    ensures
        stepped(Step::WaitingForAgreeUnixFd, true, line).0 == Step::Done,
        stepped(Step::WaitingForAgreeUnixFd, true, line).1 == begin_command(),
        !stepped(Step::WaitingForAgreeUnixFd, true, line).2,
{
    assert(line != agree_line()) by {
        if line == agree_line() {
            assert(line.subrange(0, 5) == error_prefix());
            assert(line.subrange(0, 5)[0] == agree_line()[0]);
        }
    }
}

} // verus!
