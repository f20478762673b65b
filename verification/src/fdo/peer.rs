//! The `org.freedesktop.DBus.Peer` interface: a ping, and the identity of
//! the machine.
//!
//! Where the identity comes from differs from one platform to the next, and
//! asking for it means reading files or calling the system. The caller does
//! that and reports what it found; what the answer to `GetMachineId` is, given
//! that report, is decided here.

use vstd::prelude::*;
use vstd::utf8::{decode_utf8, encode_utf8, valid_utf8};
use crate::fdo::error::Error;
use crate::names::rules::DASH;
use crate::text::{
    ascii_string, ascii_text, before_nul, concat, from_utf8, is_ascii_bytes, trim_end,
    trimmed_end, until_nul,
};

verus! {

/// The first file that is read for the identity of the machine.
pub const DBUS_MACHINE_ID: &'static str = "/var/lib/dbus/machine-id";

/// The second file that is read for the identity of the machine.
pub const ETC_MACHINE_ID: &'static str = "/etc/machine-id";

/// The third file, which the BSD systems add to the other two.
pub const DB_MACHINE_ID: &'static str = "/var/db/dbus/machine-id";

/// The number of characters in the identity of a machine.
pub const MACHINE_ID_LEN: usize = 32;

/// What the platform said when it was asked for the identity of the machine.
#[derive(Debug)]
pub enum MachineIdReport {
    /// Linux keeps the identity in a file. `primary` is what reading
    /// `/var/lib/dbus/machine-id` gave, the contents or the text of the
    /// error; `fallback` holds the contents of `/etc/machine-id` where that
    /// file could be read.
    Files { primary: core::result::Result<String, String>, fallback: Option<String> },
    /// macOS answers `gethostuuid` with a status and sixteen bytes;
    /// `os_error` is the text of the last system error.
    HostUuid { status: i32, uuid: [u8; 16], os_error: String },
    /// FreeBSD and DragonFly answer the sysctl `kern.hostuuid` with a status
    /// and the bytes that the call filled in; `os_error` is the text of the
    /// last system error.
    Sysctl { status: i32, buffer: Vec<u8>, os_error: String },
    /// OpenBSD and NetBSD have nothing to ask beyond the files.
    FilesOnly,
    /// A Unix that is none of the above.
    Unknown,
    /// Windows gives the GUID of the hardware profile, or the text of an error.
    HardwareProfile(core::result::Result<String, String>),
}

/// `b` is the code of a hexadecimal digit, in either case.
pub open spec fn is_hex_digit(b: u8) -> bool {
    (0x30 <= b <= 0x39) || (0x41 <= b <= 0x46) || (0x61 <= b <= 0x66)
}

/// The lower-case hexadecimal digit for a number below 16.
pub open spec fn hex_digit(n: int) -> u8 {
    if n < 10 {
        (0x30 + n) as u8
    } else {
        (0x61 + n - 10) as u8
    }
}

/// `data` in hexadecimal: two lower-case digits for each byte, the high
/// half first.
pub open spec fn hex_bytes(data: Seq<u8>) -> Seq<u8> {
    Seq::new(
        2 * data.len(),
        |i: int|
            if i % 2 == 0 {
                hex_digit(data[i / 2] as int / 16)
            } else {
                hex_digit(data[i / 2] as int % 16)
            },
    )
}

/// `b` is the code of a hexadecimal digit in lower case.
pub open spec fn is_lower_hex_digit(b: u8) -> bool {
    (0x30 <= b <= 0x39) || (0x61 <= b <= 0x66)
}

/// `bytes` are the 32 lower-case hexadecimal digits of a machine identity.
pub open spec fn is_machine_id(bytes: Seq<u8>) -> bool {
    &&& bytes.len() == MACHINE_ID_LEN
    &&& forall|i: int| 0 <= i < bytes.len() ==> is_lower_hex_digit(#[trigger] bytes[i])
}

/// The text is the identity of a machine: 32 lower-case hexadecimal
/// digits.
pub open spec fn is_machine_text(text: Seq<char>) -> bool {
    is_machine_id(encode_utf8(text))
}

/// `b` is a brace or a dash, which a GUID is written with.
pub open spec fn is_guid_mark(b: u8) -> bool {
    b == DASH || b == 0x7b || b == 0x7d
}

/// `s` without its braces and dashes.
pub open spec fn without_marks(s: Seq<u8>) -> Seq<u8>
    decreases s.len(),
{
    if s.len() == 0 {
        s
    } else if is_guid_mark(s.last()) {
        without_marks(s.drop_last())
    } else {
        without_marks(s.drop_last()).push(s.last())
    }
}

/// `s` without its dashes.
pub open spec fn without_dashes(s: Seq<u8>) -> Seq<u8>
    decreases s.len(),
{
    if s.len() == 0 {
        s
    } else if s.last() == DASH {
        without_dashes(s.drop_last())
    } else {
        without_dashes(s.drop_last()).push(s.last())
    }
}

/// The start of the error for identity files that cannot be read.
pub open spec fn unreadable_prefix() -> Seq<char> {
    "Failed to read from /var/lib/dbus/machine-id or /etc/machine-id: "@
}

/// The start of the error for a failed `gethostuuid`.
pub open spec fn gethostuuid_prefix() -> Seq<char> {
    "gethostuuid failed: "@
}

/// The start of the error for a failed sysctl.
pub open spec fn sysctl_prefix() -> Seq<char> {
    "sysctlbyname(kern.hostuuid) failed: "@
}

/// The start of the error for a host UUID that is no text.
pub open spec fn not_text_prefix() -> Seq<char> {
    "Invalid UTF-8 in hostuuid: "@
}

/// The start of the error for a host UUID of the wrong shape.
pub open spec fn bad_format_prefix() -> Seq<char> {
    "Invalid hostuuid format: "@
}

/// The start of the error for a file that holds no identity.
pub open spec fn bad_file_prefix() -> Seq<char> {
    "Invalid machine-id in /var/lib/dbus/machine-id or /etc/machine-id: "@
}

/// The start of the error for a hardware profile whose GUID is no
/// identity.
pub open spec fn bad_guid_prefix() -> Seq<char> {
    "Invalid hardware profile GUID: "@
}

/// The error for a platform that has only the files, when they gave nothing.
pub open spec fn no_machine_id_text() -> Seq<char> {
    "No machine-id found. Please ensure D-Bus is properly installed and /var/db/dbus/machine-id or /etc/machine-id exists."@
}

/// The error for a platform that is not known.
pub open spec fn not_implemented_text() -> Seq<char> {
    "get_machine_id is not yet implemented on this platform"@
}

/// The result is an I/O error with exactly this text.
pub open spec fn is_io_error(r: core::result::Result<String, Error>, text: Seq<char>) -> bool {
    r matches Err(Error::IOError(m)) && m@ == text
}

/// The result is an I/O error whose text starts with `prefix`.
pub open spec fn is_io_error_about(
    r: core::result::Result<String, Error>,
    prefix: Seq<char>,
) -> bool {
    r matches Err(Error::IOError(m)) && prefix.is_prefix_of(m@)
}

/// Tells whether `b` is the code of a hexadecimal digit.
pub fn hex_digit_byte(b: u8) -> (r: bool)
    ensures
        r == is_hex_digit(b),
{
    (0x30 <= b && b <= 0x39) || (0x41 <= b && b <= 0x46) || (0x61 <= b && b <= 0x66)
}

/// Writes `data` in hexadecimal, two lower-case digits for each byte.
pub fn to_hex(data: &[u8]) -> (r: String)
    ensures
        r@ == ascii_text(hex_bytes(data@)),
{
    let mut out: Vec<u8> = Vec::new();
    let mut i: usize = 0;
    while i < data.len()
        invariant
            i <= data.len(),
            out@ == hex_bytes(data@.take(i as int)),
            is_ascii_bytes(out@),
        decreases data.len() - i,
    {
        let hi = data[i] / 16;
        let lo = data[i] % 16;
        let ghost before = out@;
        out.push(if hi < 10 { 0x30 + hi } else { 0x61 + (hi - 10) });
        out.push(if lo < 10 { 0x30 + lo } else { 0x61 + (lo - 10) });
        assert(out@ =~= hex_bytes(data@.take(i + 1))) by {
            let next = hex_bytes(data@.take(i + 1));
            assert(next.len() == out@.len());
            assert forall|k: int| 0 <= k < next.len() implies next[k] == out@[k] by {
                if k < 2 * i {
                    assert(data@.take(i + 1)[k / 2] == data@.take(i as int)[k / 2]);
                    assert(before[k] == out@[k]);
                } else {
                    assert(k / 2 == i);
                }
            }
        }
        i += 1;
    }
    assert(data@.take(data.len() as int) =~= data@);
    ascii_string(out.as_slice())
}

/// Copies `text` without its dashes.
pub fn strip_dashes(text: &[u8]) -> (r: Vec<u8>)
    ensures
        r@ == without_dashes(text@),
{
    let mut out: Vec<u8> = Vec::new();
    let mut i: usize = 0;
    while i < text.len()
        invariant
            i <= text.len(),
            out@ == without_dashes(text@.take(i as int)),
        decreases text.len() - i,
    {
        let b = text[i];
        proof {
            let next = text@.take(i + 1);
            assert(next.drop_last() =~= text@.take(i as int));
            assert(next.last() == b);
        }
        if b != DASH {
            out.push(b);
        }
        i += 1;
    }
    assert(text@.take(text.len() as int) =~= text@);
    out
}

/// Tells whether `b` is the code of a hexadecimal digit in lower case.
pub fn lower_hex_digit_byte(b: u8) -> (r: bool)
    ensures
        r == is_lower_hex_digit(b),
{
    (0x30 <= b && b <= 0x39) || (0x61 <= b && b <= 0x66)
}

/// Copies `text` without its braces and dashes.
pub fn strip_marks(text: &[u8]) -> (r: Vec<u8>)
    ensures
        r@ == without_marks(text@),
{
    let mut out: Vec<u8> = Vec::new();
    let mut i: usize = 0;
    while i < text.len()
        invariant
            i <= text.len(),
            out@ == without_marks(text@.take(i as int)),
        decreases text.len() - i,
    {
        let b = text[i];
        proof {
            let next = text@.take(i + 1);
            assert(next.drop_last() =~= text@.take(i as int));
            assert(next.last() == b);
        }
        if !(b == DASH || b == 0x7b || b == 0x7d) {
            out.push(b);
        }
        i += 1;
    }
    assert(text@.take(text.len() as int) =~= text@);
    out
}

/// Tells whether `bytes` are the 32 lower-case hexadecimal digits of a
/// machine identity.
pub fn check_machine_id(bytes: &[u8]) -> (r: bool)
    ensures
        r == is_machine_id(bytes@),
        r ==> is_ascii_bytes(bytes@),
{
    if bytes.len() != MACHINE_ID_LEN {
        return false;
    }
    let mut i: usize = 0;
    while i < bytes.len()
        invariant
            i <= bytes.len(),
            forall|k: int| 0 <= k < i ==> is_lower_hex_digit(#[trigger] bytes@[k]),
        decreases bytes.len() - i,
    {
        if !lower_hex_digit_byte(bytes[i]) {
            return false;
        }
        i += 1;
    }
    true
}

/// The sixteen bytes of a host UUID in hexadecimal are the identity of a
/// machine.
pub proof fn lemma_hex_is_machine_id(uuid: Seq<u8>)
    requires
        uuid.len() == 16,
    ensures
        is_machine_id(hex_bytes(uuid)),
        is_machine_text(ascii_text(hex_bytes(uuid))),
{
    let digits = hex_bytes(uuid);
    assert forall|i: int| 0 <= i < digits.len() implies is_lower_hex_digit(
        #[trigger] digits[i],
    ) by {
        let b = uuid[i / 2] as int;
        assert(0 <= b / 16 < 16 && 0 <= b % 16 < 16);
    }
    assert(is_ascii_bytes(digits));
    crate::text::lemma_ascii_text(digits);
}

/// The text of 32 lower-case hexadecimal digits is the identity of a
/// machine.
pub proof fn lemma_digits_are_machine_text(digits: Seq<u8>)
    requires
        is_machine_id(digits),
    ensures
        is_machine_text(ascii_text(digits)),
{
    assert(is_ascii_bytes(digits));
    crate::text::lemma_ascii_text(digits);
}

/// What the host UUID that a sysctl filled into `buffer` gives as the
/// identity of the machine: the text before the first zero byte, without its
/// dashes, where that is 32 hexadecimal digits.
pub fn machine_id_from_hostuuid(buffer: &[u8]) -> (r: core::result::Result<String, Error>)
    ensures
        match before_nul(buffer@) {
            None => is_io_error(r, not_text_prefix() + "data provided does not contain a nul"@),
            Some(text) => if !valid_utf8(text) {
                is_io_error_about(r, not_text_prefix())
            } else if !is_machine_id(without_dashes(text)) {
                is_io_error(r, bad_format_prefix() + decode_utf8(text))
            } else {
                r matches Ok(id) && id@ == ascii_text(without_dashes(text))
            },
        },
        r matches Ok(id) ==> is_machine_text(id@),
{
    let text = match until_nul(buffer) {
        Some(text) => text,
        None => {
            return Err(
                Error::IOError(
                    concat(
                        "Invalid UTF-8 in hostuuid: ",
                        "data provided does not contain a nul",
                    ),
                ),
            );
        },
    };
    let uuid_str = match from_utf8(text) {
        Ok(s) => s,
        Err(e) => {
            return Err(Error::IOError(concat("Invalid UTF-8 in hostuuid: ", e.as_str())));
        },
    };
    let machine_id = strip_dashes(text);
    if !check_machine_id(machine_id.as_slice()) {
        return Err(Error::IOError(concat("Invalid hostuuid format: ", uuid_str)));
    }
    proof {
        lemma_digits_are_machine_text(machine_id@);
    }
    Ok(ascii_string(machine_id.as_slice()))
}

/// `r` is the answer that a file with the contents `contents` gives: the
/// contents without the white space at their end, where they are 32
/// lower-case hexadecimal digits, and an I/O error that shows them otherwise.
pub open spec fn is_file_machine_id(
    contents: Seq<char>,
    r: core::result::Result<String, Error>,
) -> bool {
    if is_machine_text(trimmed_end(contents)) {
        r matches Ok(s) && s@ == trimmed_end(contents)
    } else {
        is_io_error(r, bad_file_prefix() + trimmed_end(contents))
    }
}

/// `r` is the answer that the platform's own source gives for the identity
/// of the machine. An answer is the identity of a machine, 32 lower-case
/// hexadecimal digits, or an error.
///
/// - The files of Linux give the contents of the first one that could be
///   read, without the white space at its end, where that is an identity.
/// - `gethostuuid` gives its sixteen bytes in hexadecimal.
/// - The sysctl gives its text without the dashes, where that is an
///   identity.
/// - The hardware profile gives its GUID without the braces and dashes,
///   where that is an identity.
/// - A source that failed gives an I/O error; a platform that has no source
///   gives an I/O error too, and one that is not known gives `NotSupported`.
pub open spec fn is_platform_machine_id(
    report: MachineIdReport,
    r: core::result::Result<String, Error>,
) -> bool {
    match report {
        MachineIdReport::Files { primary, fallback } => match (primary, fallback) {
            (Ok(id), _) => is_file_machine_id(id@, r),
            (Err(_), Some(id)) => is_file_machine_id(id@, r),
            (Err(e), None) => is_io_error(r, unreadable_prefix() + e@),
        },
        MachineIdReport::HostUuid { status, uuid, os_error } => if status != 0 {
            is_io_error(r, gethostuuid_prefix() + os_error@)
        } else {
            r matches Ok(s) && s@ == ascii_text(hex_bytes(uuid@))
        },
        MachineIdReport::Sysctl { status, buffer, os_error } => if status != 0 {
            is_io_error(r, sysctl_prefix() + os_error@)
        } else {
            match before_nul(buffer@) {
                None => is_io_error(
                    r,
                    not_text_prefix() + "data provided does not contain a nul"@,
                ),
                Some(text) => if !valid_utf8(text) {
                    is_io_error_about(r, not_text_prefix())
                } else if !is_machine_id(without_dashes(text)) {
                    is_io_error(r, bad_format_prefix() + decode_utf8(text))
                } else {
                    r matches Ok(id) && id@ == ascii_text(without_dashes(text))
                },
            }
        },
        MachineIdReport::FilesOnly => is_io_error(r, no_machine_id_text()),
        MachineIdReport::Unknown => r matches Err(Error::NotSupported(m)) && m@
            == not_implemented_text(),
        MachineIdReport::HardwareProfile(guid) => match guid {
            Ok(id) => if is_machine_id(without_marks(encode_utf8(id@))) {
                r matches Ok(s) && s@ == ascii_text(without_marks(encode_utf8(id@)))
            } else {
                is_io_error(r, bad_guid_prefix() + id@)
            },
            Err(e) => is_io_error(r, e@),
        },
    }
}

/// The identity of the machine that the platform's own source gives.
pub fn get_platform_machine_id(report: MachineIdReport) -> (r: core::result::Result<
    String,
    Error,
>)
    ensures
        is_platform_machine_id(report, r),
        r matches Ok(id) ==> is_machine_text(id@),
{
    match report {
        MachineIdReport::Files { primary, fallback } => {
            let id = match primary {
                Ok(id) => id,
                Err(e) => {
                    if let Some(id) = fallback {
                        id
                    } else {
                        return Err(
                            Error::IOError(
                                concat(
                                    "Failed to read from /var/lib/dbus/machine-id or /etc/machine-id: ",
                                    e.as_str(),
                                ),
                            ),
                        );
                    }
                },
            };
            let text = trim_end(id.as_str());
            if !check_machine_id(text.as_bytes()) {
                return Err(
                    Error::IOError(
                        concat(
                            "Invalid machine-id in /var/lib/dbus/machine-id or /etc/machine-id: ",
                            text,
                        ),
                    ),
                );
            }
            Ok(text.to_owned())
        },
        MachineIdReport::HostUuid { status, uuid, os_error } => {
            if status != 0 {
                return Err(Error::IOError(concat("gethostuuid failed: ", os_error.as_str())));
            }
            proof {
                lemma_hex_is_machine_id(uuid@);
            }
            Ok(to_hex(uuid.as_slice()))
        },
        MachineIdReport::Sysctl { status, buffer, os_error } => {
            if status != 0 {
                return Err(
                    Error::IOError(
                        concat("sysctlbyname(kern.hostuuid) failed: ", os_error.as_str()),
                    ),
                );
            }
            machine_id_from_hostuuid(buffer.as_slice())
        },
        MachineIdReport::FilesOnly => Err(
            Error::IOError(
                "No machine-id found. Please ensure D-Bus is properly installed and /var/db/dbus/machine-id or /etc/machine-id exists.".to_owned(),
            ),
        ),
        MachineIdReport::Unknown => Err(
            Error::NotSupported(
                "get_machine_id is not yet implemented on this platform".to_owned(),
            ),
        ),
        MachineIdReport::HardwareProfile(guid) => match guid {
            Ok(id) => {
                let digits = strip_marks(id.as_str().as_bytes());
                if !check_machine_id(digits.as_slice()) {
                    return Err(
                        Error::IOError(concat("Invalid hardware profile GUID: ", id.as_str())),
                    );
                }
                proof {
                    lemma_digits_are_machine_text(digits@);
                }
                Ok(ascii_string(digits.as_slice()))
            },
            Err(e) => Err(Error::IOError(e)),
        },
    }
}

/// File `i` of `files` could be read and holds an identity: 32 lower-case
/// hexadecimal digits, and white space at most behind them.
pub open spec fn holds_id(files: Seq<Option<String>>, i: int) -> bool {
    files[i] matches Some(contents) && is_machine_text(trimmed_end(contents@))
}

/// Position `i` is that of the first file that holds an identity.
pub open spec fn first_id_at(files: Seq<Option<String>>, i: int) -> bool {
    &&& 0 <= i < files.len()
    &&& holds_id(files, i)
    &&& forall|k: int| 0 <= k < i ==> !holds_id(files, k)
}

/// The first file that holds an identity is one file only.
pub proof fn lemma_first_id_unique(files: Seq<Option<String>>, i: int, j: int)
    requires
        first_id_at(files, i),
        first_id_at(files, j),
    ensures
        i == j,
{
    if i < j {
        assert(!holds_id(files, i));
    } else if j < i {
        assert(!holds_id(files, j));
    }
}

/// The identity that the files give: the contents of the first one that
/// holds an identity, without the white space at their end.
pub open spec fn dbus_machine_id(files: Seq<Option<String>>) -> Option<Seq<char>> {
    if exists|i: int| first_id_at(files, i) {
        Some(trimmed_end(files[choose|i: int| first_id_at(files, i)]->0@))
    } else {
        None
    }
}

/// The identity of the machine from the files that the bus keeps it in.
/// `files` holds, in the order in which they are tried, the contents of each
/// file that could be read.
pub fn read_dbus_machine_id(files: &[Option<String>]) -> (r: Option<String>)
    ensures
        match r {
            Some(id) => dbus_machine_id(files@) == Some(id@) && is_machine_text(id@),
            None => dbus_machine_id(files@) is None,
        },
{
    let mut i: usize = 0;
    while i < files.len()
        invariant
            i <= files.len(),
            forall|k: int| 0 <= k < i ==> !holds_id(files@, k),
        decreases files.len() - i,
    {
        if let Some(contents) = &files[i] {
            let id = trim_end(contents.as_str());
            if check_machine_id(id.as_bytes()) {
                proof {
                    assert(first_id_at(files@, i as int));
                    let j = choose|j: int| first_id_at(files@, j);
                    lemma_first_id_unique(files@, i as int, j);
                }
                return Some(id.to_owned());
            }
        }
        i += 1;
    }
    assert forall|j: int| !first_id_at(files@, j) by {
        if 0 <= j < files.len() {
            assert(!holds_id(files@, j));
        }
    }
    None
}

/// The service side of `org.freedesktop.DBus.Peer`, which every object of
/// every peer offers.
#[derive(Clone, Copy, Debug, PartialEq, Eq, Structural)]
pub struct Peer;

impl Peer {
    /// Does nothing; the reply to the call is the answer.
    pub fn ping(&self) {
    }

    /// The identity of the machine: 32 hexadecimal digits that are the same
    /// for every process on it. The files in `files`, if there are any, are
    /// tried first, as the BSD systems do; the platform's own source is used
    /// where they give nothing.
    pub fn get_machine_id(&self, files: &[Option<String>], report: MachineIdReport) -> (r:
        core::result::Result<String, Error>)
        ensures
            match dbus_machine_id(files@) {
                Some(id) => r matches Ok(s) && s@ == id,
                None => is_platform_machine_id(report, r),
            },
            r matches Ok(id) ==> is_machine_text(id@),
    {
        if let Some(id) = read_dbus_machine_id(files) {
            return Ok(id);
        }
        get_platform_machine_id(report)
    }
}

} // verus!
