//! Helpers on text and bytes that the rest of the library shares.

use vstd::prelude::*;
use vstd::slice::slice_subrange;
use vstd::string::StringSliceAdditionalSpecFns;
use vstd::string::StringExecFns;
use vstd::utf8::{
    decode_utf8, encode_utf8, encode_utf8_decode_utf8, encode_utf8_valid_utf8, is_ascii_chars,
    is_ascii_chars_encode_utf8, valid_utf8,
};

verus! {

/// `c` has the Unicode property `White_Space`.
pub open spec fn is_whitespace(c: char) -> bool {
    let u = c as u32;
    ||| 0x09 <= u <= 0x0d
    ||| u == 0x20
    ||| u == 0x85
    ||| u == 0xa0
    ||| u == 0x1680
    ||| 0x2000 <= u <= 0x200a
    ||| u == 0x2028
    ||| u == 0x2029
    ||| u == 0x202f
    ||| u == 0x205f
    ||| u == 0x3000
}

/// `s` without the white space at its end.
pub open spec fn trimmed_end(s: Seq<char>) -> Seq<char>
    decreases s.len(),
{
    if s.len() > 0 && is_whitespace(s.last()) {
        trimmed_end(s.drop_last())
    } else {
        s
    }
}

/// `s` without the white space at its start.
pub open spec fn trimmed_start(s: Seq<char>) -> Seq<char>
    decreases s.len(),
{
    if s.len() > 0 && is_whitespace(s.first()) {
        trimmed_start(s.drop_first())
    } else {
        s
    }
}

/// `s` without the white space at either end.
pub open spec fn trimmed(s: Seq<char>) -> Seq<char> {
    trimmed_end(trimmed_start(s))
}

/// Calls `str::trim_end`, which returns the slice of `s` that is left when
/// the trailing characters with the property `White_Space` are taken away.
#[verifier::external_body]
pub(crate) fn trim_end(s: &str) -> (r: &str)
    ensures
        r@ == trimmed_end(s@),
{
    s.trim_end()
}

/// Calls `str::trim`, which returns the slice of `s` that is left when the
/// leading and the trailing characters with the property `White_Space` are
/// taken away.
#[verifier::external_body]
pub(crate) fn trim(s: &str) -> (r: &str)
    ensures
        r@ == trimmed(s@),
{
    s.trim()
}

/// Calls `core::str::from_utf8`, which accepts exactly the byte slices that
/// are well-formed UTF-8 and returns them as the text they encode. A refusal
/// is handed on as the text that its `Display` gives.
#[verifier::external_body]
pub(crate) fn from_utf8(bytes: &[u8]) -> (r: Result<&str, String>)
    ensures
        r is Ok <==> valid_utf8(bytes@),
        r matches Ok(s) ==> s@ == decode_utf8(bytes@),
{
    match core::str::from_utf8(bytes) {
        Ok(s) => Ok(s),
        Err(e) => Err(format!("{e}")),
    }
}

/// Two pieces of text with the same UTF-8 bytes are the same text.
pub proof fn lemma_same_bytes_same_text(a: Seq<char>, b: Seq<char>)
    requires
        encode_utf8(a) == encode_utf8(b),
    ensures
        a == b,
{
    encode_utf8_decode_utf8(a);
    encode_utf8_decode_utf8(b);
}

/// Tells whether two byte slices hold the same bytes.
pub fn bytes_eq(a: &[u8], b: &[u8]) -> (r: bool)
    ensures
        r == (a@ == b@),
{
    if a.len() != b.len() {
        return false;
    }
    let mut i: usize = 0;
    while i < a.len()
        invariant
            i <= a.len(),
            a.len() == b.len(),
            forall|k: int| 0 <= k < i ==> a@[k] == b@[k],
        decreases a.len() - i,
    {
        if a[i] != b[i] {
            return false;
        }
        i += 1;
    }
    assert(a@ =~= b@);
    true
}

/// Tells whether two pieces of text are the same.
pub fn str_eq(a: &str, b: &str) -> (r: bool)
    ensures
        r == (a@ == b@),
{
    let same = bytes_eq(a.as_bytes(), b.as_bytes());
    proof {
        if same {
            lemma_same_bytes_same_text(a@, b@);
        }
    }
    same
}

/// Appends the bytes of `src` to `out`.
pub fn append_bytes(out: &mut Vec<u8>, src: &[u8])
    ensures
        final(out)@ == old(out)@ + src@,
{
    let mut i: usize = 0;
    while i < src.len()
        invariant
            i <= src.len(),
            out@ == old(out)@ + src@.take(i as int),
        decreases src.len() - i,
    {
        out.push(src[i]);
        assert(src@.take(i + 1) =~= src@.take(i as int).push(src@[i as int]));
        i += 1;
    }
    assert(src@.take(src.len() as int) =~= src@);
}

/// Every byte of `b` is an ASCII code.
pub open spec fn is_ascii_bytes(b: Seq<u8>) -> bool {
    forall|i: int| 0 <= i < b.len() ==> #[trigger] b[i] < 128
}

/// The text that the ASCII bytes `b` spell, one character for each byte.
pub open spec fn ascii_text(b: Seq<u8>) -> Seq<char> {
    Seq::new(b.len(), |i: int| b[i] as char)
}

/// ASCII bytes are well-formed UTF-8, and they encode the text that they
/// spell byte by byte.
pub proof fn lemma_ascii_text(b: Seq<u8>)
    requires
        is_ascii_bytes(b),
    ensures
        is_ascii_chars(ascii_text(b)),
        encode_utf8(ascii_text(b)) == b,
        valid_utf8(b),
        decode_utf8(b) == ascii_text(b),
{
    let chars = ascii_text(b);
    assert forall|i: int| 0 <= i < chars.len() implies '\0' <= #[trigger] chars[i] <= '\u{7f}' by {
        assert(b[i] < 128);
    }
    is_ascii_chars_encode_utf8(chars);
    assert(encode_utf8(chars) =~= b);
    encode_utf8_valid_utf8(chars);
    encode_utf8_decode_utf8(chars);
}

/// The text that the ASCII bytes spell.
pub fn ascii_string(bytes: &[u8]) -> (r: String)
    requires
        is_ascii_bytes(bytes@),
    ensures
        r@ == ascii_text(bytes@),
{
    proof {
        lemma_ascii_text(bytes@);
    }
    match from_utf8(bytes) {
        Ok(s) => s.to_owned(),
        Err(_) => String::new(),
    }
}

/// `prefix` followed by `rest`, as one piece of text.
pub fn concat(prefix: &str, rest: &str) -> (r: String)
    ensures
        r@ == prefix@ + rest@,
{
    let mut out = prefix.to_owned();
    out.append(rest);
    out
}

/// `s` without the characters `c` at its end.
pub open spec fn stripped_end(s: Seq<char>, c: char) -> Seq<char>
    decreases s.len(),
{
    if s.len() > 0 && s.last() == c {
        stripped_end(s.drop_last(), c)
    } else {
        s
    }
}

/// `s` without the characters `c` at its start.
pub open spec fn stripped_start(s: Seq<char>, c: char) -> Seq<char>
    decreases s.len(),
{
    if s.len() > 0 && s.first() == c {
        stripped_start(s.drop_first(), c)
    } else {
        s
    }
}

/// `s` without the characters `c` at either end.
pub open spec fn stripped(s: Seq<char>, c: char) -> Seq<char> {
    stripped_end(stripped_start(s, c), c)
}

/// Calls `str::trim_matches` with a character as the pattern, which returns
/// the slice of `s` that is left when every leading and every trailing `c`
/// is taken away.
#[verifier::external_body]
pub(crate) fn trim_matches(s: &str, c: char) -> (r: &str)
    ensures
        r@ == stripped(s@, c),
{
    s.trim_matches(c)
}

/// Position `p` holds the first zero byte of `buf`.
pub open spec fn first_nul_at(buf: Seq<u8>, p: int) -> bool {
    &&& 0 <= p < buf.len()
    &&& buf[p] == 0
    &&& forall|k: int| 0 <= k < p ==> buf[k] != 0
}

/// The bytes of `buf` before its first zero byte; `None` where it has none.
pub open spec fn before_nul(buf: Seq<u8>) -> Option<Seq<u8>> {
    if exists|p: int| first_nul_at(buf, p) {
        Some(buf.take(choose|p: int| first_nul_at(buf, p)))
    } else {
        None
    }
}

/// The first zero byte of a sequence stands at one position only.
pub proof fn lemma_first_nul_unique(buf: Seq<u8>, p: int, q: int)
    requires
        first_nul_at(buf, p),
        first_nul_at(buf, q),
    ensures
        p == q,
{
    if p < q {
        assert(buf[p] != 0);
    } else if q < p {
        assert(buf[q] != 0);
    }
}

/// The bytes of `buf` before its first zero byte.
pub fn until_nul(buf: &[u8]) -> (r: Option<&[u8]>)
    ensures
        match r {
            Some(text) => before_nul(buf@) == Some(text@),
            None => before_nul(buf@) is None,
        },
{
    let mut i: usize = 0;
    while i < buf.len()
        invariant
            i <= buf.len(),
            forall|k: int| 0 <= k < i ==> buf@[k] != 0,
        decreases buf.len() - i,
    {
        if buf[i] == 0 {
            proof {
                assert(first_nul_at(buf@, i as int));
                let p = choose|p: int| first_nul_at(buf@, p);
                lemma_first_nul_unique(buf@, p, i as int);
            }
            return Some(slice_subrange(buf, 0, i));
        }
        i += 1;
    }
    assert forall|p: int| !first_nul_at(buf@, p) by {
        if 0 <= p < buf.len() {
            assert(buf@[p] != 0);
        }
    }
    None
}

/// Position `z` holds the last zero byte of `s`.
pub open spec fn last_nul_at(s: Seq<u8>, z: int) -> bool {
    &&& 0 <= z < s.len()
    &&& s[z] == 0
    &&& forall|k: int| z < k < s.len() ==> s[k] != 0
}

/// The position of the last zero byte of `s`; `None` where it has none.
pub open spec fn last_nul(s: Seq<u8>) -> Option<int> {
    if exists|z: int| last_nul_at(s, z) {
        Some(choose|z: int| last_nul_at(s, z))
    } else {
        None
    }
}

/// The last zero byte of a sequence stands at one position only.
pub proof fn lemma_last_nul_unique(s: Seq<u8>, p: int, q: int)
    requires
        last_nul_at(s, p),
        last_nul_at(s, q),
    ensures
        p == q,
{
    if p < q {
        assert(s[q] != 0);
    } else if q < p {
        assert(s[p] != 0);
    }
}

/// The last zero byte of a sequence is where it is found.
pub proof fn lemma_last_nul_is(s: Seq<u8>, z: int)
    requires
        last_nul_at(s, z),
    ensures
        last_nul(s) == Some(z),
{
    let c = choose|c: int| last_nul_at(s, c);
    lemma_last_nul_unique(s, c, z);
}

/// The first zero byte of a sequence is where it is found.
pub proof fn lemma_before_nul_is(s: Seq<u8>, p: int)
    requires
        first_nul_at(s, p),
    ensures
        before_nul(s) == Some(s.take(p)),
{
    let c = choose|c: int| first_nul_at(s, c);
    lemma_first_nul_unique(s, c, p);
}

/// The position of the last zero byte of `bytes` between `from` and `to`.
pub fn find_last_nul(bytes: &[u8], from: usize, to: usize) -> (r: Option<usize>)
    requires
        from <= to <= bytes.len(),
    ensures
        match r {
            Some(z) => from <= z < to && last_nul(bytes@.subrange(from as int, to as int))
                == Some(z - from),
            None => last_nul(bytes@.subrange(from as int, to as int)) is None,
        },
{
    let ghost s = bytes@.subrange(from as int, to as int);
    let mut i: usize = to;
    while i > from
        invariant
            from <= i <= to <= bytes.len(),
            s == bytes@.subrange(from as int, to as int),
            forall|k: int| i <= k < to ==> bytes@[k] != 0,
        decreases i,
    {
        i -= 1;
        if bytes[i] == 0 {
            proof {
                assert(last_nul_at(s, i - from)) by {
                    assert forall|k: int| i - from < k < s.len() implies s[k] != 0 by {
                        assert(s[k] == bytes@[from + k]);
                    }
                }
                lemma_last_nul_is(s, i - from);
            }
            return Some(i);
        }
    }
    assert forall|z: int| !last_nul_at(s, z) by {
        if 0 <= z < s.len() {
            assert(s[z] == bytes@[from + z]);
        }
    }
    None
}

} // verus!
