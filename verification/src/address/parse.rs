//! The text of an address: transports with semicolons between them, each
//! the name of a scheme, a colon, and settings of the form `key=value` with
//! commas between them. In a value, a percent sign and two hexadecimal digits
//! stand for the byte with that code.

use vstd::prelude::*;
use vstd::slice::{slice_subrange, slice_to_vec};
use vstd::string::StringSliceAdditionalSpecFns;
use crate::error::Error;
use crate::fdo::peer::{hex_digit_byte, is_hex_digit};
use crate::match_rule::{find_first, first_of};

verus! {

/// The byte between two transports.
pub const SEMICOLON: u8 = 0x3b;

/// The byte behind the name of a scheme.
pub const COLON: u8 = 0x3a;

/// The byte between two settings.
pub const COMMA: u8 = 0x2c;

/// The byte between a key and its value.
pub const EQUALS: u8 = 0x3d;

/// The byte in front of the two digits of an escaped byte.
pub const PERCENT: u8 = 0x25;

/// A setting of a transport: a key and its value.
#[derive(Debug, PartialEq, Eq)]
pub struct Setting {
    pub key: Vec<u8>,
    pub value: Vec<u8>,
}

/// A transport as its text spells it: the name of its scheme, and its
/// settings in their order.
#[derive(Debug, PartialEq, Eq)]
pub struct Entry {
    pub scheme: Vec<u8>,
    pub settings: Vec<Setting>,
}

/// What a transport says.
pub struct EntryView {
    pub scheme: Seq<u8>,
    pub settings: Seq<(Seq<u8>, Seq<u8>)>,
}

/// What a row of settings says.
pub open spec fn setting_views(settings: Seq<Setting>) -> Seq<(Seq<u8>, Seq<u8>)> {
    Seq::new(settings.len(), |i: int| (settings[i].key@, settings[i].value@))
}

impl View for Entry {
    type V = EntryView;

    open spec fn view(&self) -> EntryView {
        EntryView { scheme: self.scheme@, settings: setting_views(self.settings@) }
    }
}

/// What a row of transports says.
pub open spec fn entry_views(entries: Seq<Entry>) -> Seq<EntryView> {
    Seq::new(entries.len(), |i: int| entries[i]@)
}

/// The number that a hexadecimal digit stands for.
pub open spec fn hex_value(b: u8) -> int {
    if b <= 0x39 {
        b - 0x30
    } else if b <= 0x46 {
        b - 0x41 + 10
    } else {
        b - 0x61 + 10
    }
}

/// The bytes that the value `s` stands for: a percent sign and two
/// hexadecimal digits are the byte with that code, and every other byte is
/// itself. A percent sign without its two digits spells no value.
pub open spec fn unescaped(s: Seq<u8>) -> Option<Seq<u8>>
    decreases s.len(),
{
    if s.len() == 0 {
        Some(seq![])
    } else if s[0] == PERCENT {
        if s.len() >= 3 && is_hex_digit(s[1]) && is_hex_digit(s[2]) {
            match unescaped(s.skip(3)) {
                Some(rest) => Some(seq![(hex_value(s[1]) * 16 + hex_value(s[2])) as u8] + rest),
                None => None,
            }
        } else {
            None
        }
    } else {
        match unescaped(s.skip(1)) {
            Some(rest) => Some(seq![s[0]] + rest),
            None => None,
        }
    }
}

/// The setting that `piece` spells: a key that is not empty, an equals
/// sign, and a value.
pub open spec fn setting_of(piece: Seq<u8>) -> Option<(Seq<u8>, Seq<u8>)> {
    let e = first_of(piece, EQUALS);
    if !(0 < e < piece.len()) {
        None
    } else {
        match unescaped(piece.skip(e + 1)) {
            Some(value) => Some((piece.take(e), value)),
            None => None,
        }
    }
}

/// The settings that `s` spells: one or more, with commas between them.
pub open spec fn settings_of(s: Seq<u8>) -> Option<Seq<(Seq<u8>, Seq<u8>)>>
    decreases s.len(),
{
    let c = first_of(s, COMMA);
    if !(0 <= c <= s.len()) {
        None
    } else {
        match setting_of(s.take(c)) {
            None => None,
            Some(setting) => if c >= s.len() {
                Some(seq![setting])
            } else {
                match settings_of(s.skip(c + 1)) {
                    Some(rest) => Some(seq![setting] + rest),
                    None => None,
                }
            },
        }
    }
}

/// The transport that `piece` spells: the name of a scheme, which is not
/// empty, a colon, and settings or nothing.
pub open spec fn entry_of(piece: Seq<u8>) -> Option<EntryView> {
    let c = first_of(piece, COLON);
    if !(0 < c < piece.len()) {
        None
    } else if c + 1 == piece.len() {
        Some(EntryView { scheme: piece.take(c), settings: seq![] })
    } else {
        match settings_of(piece.skip(c + 1)) {
            Some(settings) => Some(EntryView { scheme: piece.take(c), settings }),
            None => None,
        }
    }
}

/// The transports that the address `s` spells: one or more, with
/// semicolons between them.
pub open spec fn entries_of(s: Seq<u8>) -> Option<Seq<EntryView>>
    decreases s.len(),
{
    let c = first_of(s, SEMICOLON);
    if !(0 <= c <= s.len()) {
        None
    } else {
        match entry_of(s.take(c)) {
            None => None,
            Some(entry) => if c >= s.len() {
                Some(seq![entry])
            } else {
                match entries_of(s.skip(c + 1)) {
                    Some(rest) => Some(seq![entry] + rest),
                    None => None,
                }
            },
        }
    }
}

/// What is read when `done` was read before and `rest` is read behind it.
pub open spec fn read_behind<T>(done: Seq<T>, rest: Option<Seq<T>>) -> Option<Seq<T>> {
    match rest {
        Some(more) => Some(done + more),
        None => None,
    }
}

/// The number that a hexadecimal digit stands for.
fn hex_number(b: u8) -> (r: u8)
    requires
        is_hex_digit(b),
    ensures
        r == hex_value(b),
        r < 16,
{
    if b <= 0x39 {
        b - 0x30
    } else if b <= 0x46 {
        b - 0x41 + 10
    } else {
        b - 0x61 + 10
    }
}

/// Reads the value between `from` and `to`: see [`unescaped`].
pub fn unescape(bytes: &[u8], from: usize, to: usize) -> (r: Option<Vec<u8>>)
    requires
        from <= to <= bytes.len(),
    ensures
        match unescaped(bytes@.subrange(from as int, to as int)) {
            Some(value) => r matches Some(v) && v@ == value,
            None => r is None,
        },
{
    let ghost whole = unescaped(bytes@.subrange(from as int, to as int));
    let mut out: Vec<u8> = Vec::new();
    let mut cur: usize = from;
    assert(whole == read_behind(out@, whole)) by {
        if let Some(more) = whole {
            assert(out@ + more =~= more);
        }
    }
    while cur < to
        invariant
            from <= cur <= to <= bytes.len(),
            whole == unescaped(bytes@.subrange(from as int, to as int)),
            whole == read_behind(out@, unescaped(bytes@.subrange(cur as int, to as int))),
        decreases to - cur,
    {
        let ghost s = bytes@.subrange(cur as int, to as int);
        let ghost done = out@;
        assert(s[0] == bytes@[cur as int]);
        if bytes[cur] == PERCENT {
            if to - cur < 3 {
                return None;
            }
            assert(s[1] == bytes@[cur + 1] && s[2] == bytes@[cur + 2]);
            if !hex_digit_byte(bytes[cur + 1]) || !hex_digit_byte(bytes[cur + 2]) {
                return None;
            }
            let b = hex_number(bytes[cur + 1]) * 16 + hex_number(bytes[cur + 2]);
            out.push(b);
            proof {
                assert(s.skip(3) =~= bytes@.subrange(cur + 3, to as int));
                if let Some(more) = unescaped(s.skip(3)) {
                    assert(done + (seq![b] + more) =~= done.push(b) + more);
                }
            }
            cur += 3;
        } else {
            let b = bytes[cur];
            out.push(b);
            proof {
                assert(s.skip(1) =~= bytes@.subrange(cur + 1, to as int));
                if let Some(more) = unescaped(s.skip(1)) {
                    assert(done + (seq![b] + more) =~= done.push(b) + more);
                }
            }
            cur += 1;
        }
    }
    assert(out@ + Seq::<u8>::empty() =~= out@);
    Some(out)
}

/// Reads the setting between `from` and `to`.
pub fn read_setting(bytes: &[u8], from: usize, to: usize) -> (r: Option<Setting>)
    requires
        from <= to <= bytes.len(),
    ensures
        match setting_of(bytes@.subrange(from as int, to as int)) {
            Some(setting) => r matches Some(s) && (s.key@, s.value@) == setting,
            None => r is None,
        },
{
    let ghost piece = bytes@.subrange(from as int, to as int);
    let e = find_first(bytes, from, to, EQUALS);
    if e == from || e >= to {
        return None;
    }
    assert(piece.skip(e - from + 1) =~= bytes@.subrange(e + 1, to as int));
    assert(piece.take(e - from) =~= bytes@.subrange(from as int, e as int));
    match unescape(bytes, e + 1, to) {
        Some(value) => Some(Setting { key: slice_to_vec(slice_subrange(bytes, from, e)), value }),
        None => None,
    }
}

/// Reads the settings between `from` and `to`.
pub fn read_settings(bytes: &[u8], from: usize, to: usize) -> (r: Option<Vec<Setting>>)
    requires
        from <= to <= bytes.len(),
    ensures
        match settings_of(bytes@.subrange(from as int, to as int)) {
            Some(settings) => r matches Some(s) && setting_views(s@) == settings,
            None => r is None,
        },
{
    let ghost whole = settings_of(bytes@.subrange(from as int, to as int));
    let mut settings: Vec<Setting> = Vec::new();
    let mut cur: usize = from;
    assert(setting_views(settings@) =~= seq![]);
    assert(whole == read_behind(setting_views(settings@), whole)) by {
        if let Some(more) = whole {
            assert(setting_views(settings@) + more =~= more);
        }
    }
    loop
        invariant
            from <= cur <= to <= bytes.len(),
            whole == settings_of(bytes@.subrange(from as int, to as int)),
            whole == read_behind(
                setting_views(settings@),
                settings_of(bytes@.subrange(cur as int, to as int)),
            ),
        decreases to - cur,
    {
        let ghost s = bytes@.subrange(cur as int, to as int);
        let ghost done = setting_views(settings@);
        let comma = find_first(bytes, cur, to, COMMA);
        assert(s.take(comma - cur) =~= bytes@.subrange(cur as int, comma as int));
        let setting = match read_setting(bytes, cur, comma) {
            Some(setting) => setting,
            None => {
                return None;
            },
        };
        let ghost v = (setting.key@, setting.value@);
        settings.push(setting);
        assert(setting_views(settings@) =~= done + seq![v]);
        if comma >= to {
            return Some(settings);
        }
        proof {
            assert(s.skip(comma - cur + 1) =~= bytes@.subrange(comma + 1, to as int));
            if let Some(more) = settings_of(bytes@.subrange(comma + 1, to as int)) {
                assert(done + (seq![v] + more) =~= (done + seq![v]) + more);
            }
        }
        cur = comma + 1;
    }
}

/// Reads the transport between `from` and `to`.
pub fn read_entry(bytes: &[u8], from: usize, to: usize) -> (r: Option<Entry>)
    requires
        from <= to <= bytes.len(),
    ensures
        match entry_of(bytes@.subrange(from as int, to as int)) {
            Some(entry) => r matches Some(e) && e@ == entry,
            None => r is None,
        },
{
    let ghost piece = bytes@.subrange(from as int, to as int);
    let c = find_first(bytes, from, to, COLON);
    if c == from || c >= to {
        return None;
    }
    assert(piece.take(c - from) =~= bytes@.subrange(from as int, c as int));
    let scheme = slice_to_vec(slice_subrange(bytes, from, c));
    if c + 1 == to {
        let settings: Vec<Setting> = Vec::new();
        assert(setting_views(settings@) =~= seq![]);
        return Some(Entry { scheme, settings });
    }
    assert(piece.skip(c - from + 1) =~= bytes@.subrange(c + 1, to as int));
    match read_settings(bytes, c + 1, to) {
        Some(settings) => Some(Entry { scheme, settings }),
        None => None,
    }
}

/// The text of the error for text that spells no address.
pub const INVALID_ADDRESS: &'static str = "invalid address";

/// Reads an address: see [`entries_of`]. Text that spells no address is
/// an error of the address.
pub fn parse_address(text: &str) -> (r: Result<Vec<Entry>, Error>)
    ensures
        match entries_of(text.spec_bytes()) {
            Some(entries) => r matches Ok(found) && entry_views(found@) == entries,
            None => r matches Err(e) && e matches Error::Address(_),
        },
{
    let bytes = text.as_bytes();
    let len = bytes.len();
    let ghost whole = entries_of(bytes@);
    let mut entries: Vec<Entry> = Vec::new();
    let mut cur: usize = 0;
    assert(entry_views(entries@) =~= seq![]);
    assert(bytes@.skip(0) =~= bytes@);
    assert(whole == read_behind(entry_views(entries@), whole)) by {
        if let Some(more) = whole {
            assert(entry_views(entries@) + more =~= more);
        }
    }
    loop
        invariant
            cur <= len,
            len == bytes.len(),
            bytes@ == text.spec_bytes(),
            whole == entries_of(bytes@),
            whole == read_behind(entry_views(entries@), entries_of(bytes@.skip(cur as int))),
        decreases len - cur,
    {
        let ghost s = bytes@.skip(cur as int);
        let ghost done = entry_views(entries@);
        assert(s =~= bytes@.subrange(cur as int, len as int));
        let semicolon = find_first(bytes, cur, len, SEMICOLON);
        assert(s.take(semicolon - cur) =~= bytes@.subrange(cur as int, semicolon as int));
        let entry = match read_entry(bytes, cur, semicolon) {
            Some(entry) => entry,
            None => {
                return Err(Error::Address(INVALID_ADDRESS.to_owned()));
            },
        };
        let ghost v = entry@;
        entries.push(entry);
        assert(entry_views(entries@) =~= done + seq![v]);
        if semicolon >= len {
            return Ok(entries);
        }
        proof {
            assert(s.skip(semicolon - cur + 1) =~= bytes@.skip(semicolon + 1));
            if let Some(more) = entries_of(bytes@.skip(semicolon + 1)) {
                assert(done + (seq![v] + more) =~= (done + seq![v]) + more);
            }
        }
        cur = semicolon + 1;
    }
}

/// The schemes that an address can name.
#[derive(Clone, Copy, Debug, PartialEq, Eq, Structural)]
pub enum Scheme {
    /// A socket in the file system or in the abstract namespace.
    Unix,
    /// A socket of the network.
    Tcp,
    /// A program that is started and spoken to over its input and output.
    UnixExec,
    /// A bus that is found or started for the session.
    Autolaunch,
    /// A socket that launchd names in the environment.
    Launchd,
    /// The bus of the input method, whose address a helper prints.
    Ibus,
}

/// The bytes of a piece of text.
pub open spec fn lit(text: &str) -> Seq<u8> {
    text.spec_bytes()
}

/// The scheme with the name `name`, if there is one.
pub open spec fn scheme_named(name: Seq<u8>) -> Option<Scheme> {
    if name == lit("unix") {
        Some(Scheme::Unix)
    } else if name == lit("tcp") {
        Some(Scheme::Tcp)
    } else if name == lit("unixexec") {
        Some(Scheme::UnixExec)
    } else if name == lit("autolaunch") {
        Some(Scheme::Autolaunch)
    } else if name == lit("launchd") {
        Some(Scheme::Launchd)
    } else if name == lit("ibus") {
        Some(Scheme::Ibus)
    } else {
        None
    }
}

/// The place of the first setting with the key `key`, if there is one.
pub open spec fn setting_at(settings: Seq<(Seq<u8>, Seq<u8>)>, key: Seq<u8>, i: int) -> bool {
    &&& 0 <= i < settings.len()
    &&& settings[i].0 == key
    &&& forall|k: int| 0 <= k < i ==> (#[trigger] settings[k]).0 != key
}

/// There is a setting with the key `key`.
pub open spec fn has_setting(settings: Seq<(Seq<u8>, Seq<u8>)>, key: Seq<u8>) -> bool {
    exists|i: int| 0 <= i < settings.len() && (#[trigger] settings[i]).0 == key
}

/// The transport has the settings that its scheme cannot do without: a
/// unix socket is named by `path`, `abstract`, `dir`, `tmpdir` or `runtime`;
/// a socket of the network has a `host`; a program has a `path`; and launchd
/// is told the variable of the environment by `env`.
pub open spec fn has_required(scheme: Scheme, settings: Seq<(Seq<u8>, Seq<u8>)>) -> bool {
    match scheme {
        Scheme::Unix => has_setting(settings, lit("path")) || has_setting(
            settings,
            lit("abstract"),
        ) || has_setting(settings, lit("dir")) || has_setting(settings, lit("tmpdir"))
            || has_setting(settings, lit("runtime")),
        Scheme::Tcp => has_setting(settings, lit("host")),
        Scheme::UnixExec => has_setting(settings, lit("path")),
        Scheme::Launchd => has_setting(settings, lit("env")),
        Scheme::Autolaunch | Scheme::Ibus => true,
    }
}

/// The scheme of the transport, where it is one of those that an address
/// can name and the transport has what the scheme cannot do without.
pub open spec fn usable_scheme(entry: EntryView) -> Option<Scheme> {
    match scheme_named(entry.scheme) {
        Some(scheme) => if has_required(scheme, entry.settings) {
            Some(scheme)
        } else {
            None
        },
        None => None,
    }
}

/// Tells whether the bytes are those of the text.
fn is_text(bytes: &[u8], text: &str) -> (r: bool)
    ensures
        r == (bytes@ == lit(text)),
{
    crate::text::bytes_eq(bytes, text.as_bytes())
}

impl Entry {
    /// The value of the first setting with the key `key`, if there is
    /// one.
    pub fn value_of(&self, key: &str) -> (r: Option<&[u8]>)
        ensures
            match r {
                Some(value) => exists|i: int|
                    setting_at(setting_views(self.settings@), lit(key), i) && value@
                        == #[trigger] self.settings@[i].value@,
                None => !has_setting(setting_views(self.settings@), lit(key)),
            },
    {
        let ghost all = setting_views(self.settings@);
        let mut i: usize = 0;
        while i < self.settings.len()
            invariant
                i <= self.settings.len(),
                all == setting_views(self.settings@),
                forall|k: int| 0 <= k < i ==> (#[trigger] all[k]).0 != lit(key),
            decreases self.settings.len() - i,
        {
            assert(all[i as int].0 == self.settings[i as int].key@);
            if is_text(self.settings[i].key.as_slice(), key) {
                assert(setting_at(all, lit(key), i as int));
                return Some(self.settings[i].value.as_slice());
            }
            i += 1;
        }
        None
    }

    /// Tells whether there is a setting with the key `key`.
    pub fn has(&self, key: &str) -> (r: bool)
        ensures
            r == has_setting(setting_views(self.settings@), lit(key)),
    {
        match self.value_of(key) {
            Some(_) => {
                let ghost i = choose|i: int|
                    setting_at(setting_views(self.settings@), lit(key), i);
                assert(setting_views(self.settings@)[i].0 == lit(key));
                true
            },
            None => false,
        }
    }

    /// The scheme of the transport: see [`usable_scheme`]. A scheme that
    /// is not known, or a transport without a setting that its scheme cannot
    /// do without, is an error of the address.
    pub fn scheme(&self) -> (r: Result<Scheme, Error>)
        ensures
            match usable_scheme(self@) {
                Some(scheme) => r == Ok::<Scheme, Error>(scheme),
                None => r matches Err(e) && e matches Error::Address(_),
            },
    {
        let name = self.scheme.as_slice();
        let scheme = if is_text(name, "unix") {
            Scheme::Unix
        } else if is_text(name, "tcp") {
            Scheme::Tcp
        } else if is_text(name, "unixexec") {
            Scheme::UnixExec
        } else if is_text(name, "autolaunch") {
            Scheme::Autolaunch
        } else if is_text(name, "launchd") {
            Scheme::Launchd
        } else if is_text(name, "ibus") {
            Scheme::Ibus
        } else {
            return Err(Error::Address(INVALID_ADDRESS.to_owned()));
        };
        let complete = match scheme {
            Scheme::Unix => self.has("path") || self.has("abstract") || self.has("dir")
                || self.has("tmpdir") || self.has("runtime"),
            Scheme::Tcp => self.has("host"),
            Scheme::UnixExec => self.has("path"),
            Scheme::Launchd => self.has("env"),
            Scheme::Autolaunch | Scheme::Ibus => true,
        };
        if complete {
            Ok(scheme)
        } else {
            Err(Error::Address(INVALID_ADDRESS.to_owned()))
        }
    }
}

/// The address that `s` spells: its transports, where `s` spells
/// transports and the scheme of each is one that an address can name, with
/// the settings that the scheme cannot do without.
pub open spec fn address_of(s: Seq<u8>) -> Option<Seq<EntryView>> {
    match entries_of(s) {
        Some(entries) => if forall|i: int|
            0 <= i < entries.len() ==> usable_scheme(#[trigger] entries[i]) is Some {
            Some(entries)
        } else {
            None
        },
        None => None,
    }
}

/// Reads an address whose transports can all be used: see [`address_of`].
/// Text that spells no such address is an error of the address.
pub fn parse_usable_address(text: &str) -> (r: Result<Vec<Entry>, Error>)
    ensures
        match address_of(text.spec_bytes()) {
            Some(entries) => r matches Ok(found) && entry_views(found@) == entries,
            None => r matches Err(e) && e matches Error::Address(_),
        },
{
    let entries = match parse_address(text) {
        Ok(entries) => entries,
        Err(e) => {
            return Err(e);
        },
    };
    let ghost all = entry_views(entries@);
    let mut i: usize = 0;
    while i < entries.len()
        invariant
            i <= entries.len(),
            all == entry_views(entries@),
            entries_of(text.spec_bytes()) == Some(all),
            forall|k: int| 0 <= k < i ==> usable_scheme(#[trigger] all[k]) is Some,
        decreases entries.len() - i,
    {
        assert(all[i as int] == entries[i as int]@);
        match entries[i].scheme() {
            Ok(_) => {},
            Err(e) => {
                assert(usable_scheme(all[i as int]) is None);
                return Err(e);
            },
        }
        i += 1;
    }
    Ok(entries)
}

} // verus!
