//! The grammar of signatures: reading the text of a signature as a tree.

use vstd::prelude::*;
use vstd::string::StringSliceAdditionalSpecFns;
use crate::wire::error::Error;
use crate::wire::signature::{lemma_structure_view, texts, views, Signature, SignatureView};

verus! {

/// No signature is longer than this many bytes.
pub const MAX_SIGNATURE_LEN: usize = 255;

/// `a`, which opens an array or a dictionary.
pub const ARRAY: u8 = 0x61;

/// `m`, which opens a maybe.
pub const MAYBE: u8 = 0x6d;

/// `(`, which opens a structure.
pub const STRUCT_OPEN: u8 = 0x28;

/// `)`, which closes a structure.
pub const STRUCT_CLOSE: u8 = 0x29;

/// `{`, which opens the entry of a dictionary.
pub const DICT_OPEN: u8 = 0x7b;

/// `}`, which closes the entry of a dictionary.
pub const DICT_CLOSE: u8 = 0x7d;

/// The type that a single byte spells, if it spells one: a basic type or
/// the variant.
pub open spec fn simple_type(b: u8) -> Option<SignatureView> {
    if b == 0x79 {
        Some(SignatureView::U8)
    } else if b == 0x62 {
        Some(SignatureView::Bool)
    } else if b == 0x6e {
        Some(SignatureView::I16)
    } else if b == 0x71 {
        Some(SignatureView::U16)
    } else if b == 0x69 {
        Some(SignatureView::I32)
    } else if b == 0x75 {
        Some(SignatureView::U32)
    } else if b == 0x78 {
        Some(SignatureView::I64)
    } else if b == 0x74 {
        Some(SignatureView::U64)
    } else if b == 0x64 {
        Some(SignatureView::F64)
    } else if b == 0x73 {
        Some(SignatureView::Str)
    } else if b == 0x67 {
        Some(SignatureView::Signature)
    } else if b == 0x6f {
        Some(SignatureView::ObjectPath)
    } else if b == 0x76 {
        Some(SignatureView::Variant)
    } else if b == 0x68 {
        Some(SignatureView::Fd)
    } else {
        None
    }
}

/// Reads one complete type from the start of `s`: the type, and the number
/// of bytes that spell it.
pub open spec fn parse_one(s: Seq<u8>) -> Option<(SignatureView, int)>
    decreases s.len(), 0nat,
{
    if s.len() == 0 {
        None
    } else if simple_type(s[0]) is Some {
        Some((simple_type(s[0])->0, 1))
    } else if s[0] == ARRAY && s.len() > 1 && s[1] == DICT_OPEN {
        if s.len() > 2 && simple_type(s[2]) is Some && simple_type(s[2])->0.is_basic() {
            match parse_one(s.skip(3)) {
                Some((value, n)) => if 3 + n < s.len() && s[3 + n] == DICT_CLOSE {
                    Some(
                        (
                            SignatureView::Dict(Box::new(simple_type(s[2])->0), Box::new(value)),
                            n + 4,
                        ),
                    )
                } else {
                    None
                },
                None => None,
            }
        } else {
            None
        }
    } else if s[0] == ARRAY {
        match parse_one(s.skip(1)) {
            Some((elem, n)) => Some((SignatureView::Array(Box::new(elem)), n + 1)),
            None => None,
        }
    } else if s[0] == MAYBE {
        match parse_one(s.skip(1)) {
            Some((elem, n)) => Some((SignatureView::Maybe(Box::new(elem)), n + 1)),
            None => None,
        }
    } else if s[0] == STRUCT_OPEN {
        match parse_fields(s.skip(1)) {
            Some((fields, n)) => Some((SignatureView::Structure(fields), n + 1)),
            None => None,
        }
    } else {
        None
    }
}

/// Reads the fields of a structure from the start of `s`, which stands
/// behind the opening bracket: one or more complete types and the closing
/// bracket. Gives the types, and the number of bytes read, bracket included.
pub open spec fn parse_fields(s: Seq<u8>) -> Option<(Seq<SignatureView>, int)>
    decreases s.len(), 1nat,
{
    match parse_one(s) {
        None => None,
        Some((first, n)) => if !(0 < n <= s.len()) {
            None
        } else if n < s.len() && s[n] == STRUCT_CLOSE {
            Some((seq![first], n + 1))
        } else {
            match parse_fields(s.skip(n)) {
                Some((rest, m)) => Some((seq![first] + rest, n + m)),
                None => None,
            }
        },
    }
}

/// Reads all of `s` as complete types, one after the other.
pub open spec fn parse_all(s: Seq<u8>) -> Option<Seq<SignatureView>>
    decreases s.len(),
{
    if s.len() == 0 {
        Some(seq![])
    } else {
        match parse_one(s) {
            None => None,
            Some((first, n)) => if !(0 < n <= s.len()) {
                None
            } else {
                match parse_all(s.skip(n)) {
                    Some(rest) => Some(seq![first] + rest),
                    None => None,
                }
            },
        }
    }
}

/// The tree for a row of complete types: the unit for none, the type itself
/// for one, and a structure of them for more.
pub open spec fn tree_of(types: Seq<SignatureView>) -> SignatureView {
    if types.len() == 0 {
        SignatureView::Unit
    } else if types.len() == 1 {
        types[0]
    } else {
        SignatureView::Structure(types)
    }
}

/// Reads `s` as a signature: at most 255 bytes that spell complete types
/// from the first byte to the last.
pub open spec fn parse_signature(s: Seq<u8>) -> Option<SignatureView> {
    if s.len() > MAX_SIGNATURE_LEN {
        None
    } else {
        match parse_all(s) {
            Some(types) => Some(tree_of(types)),
            None => None,
        }
    }
}

/// Every type in `types` is complete.
pub open spec fn all_complete(types: Seq<SignatureView>) -> bool {
    forall|i: int| 0 <= i < types.len() ==> (#[trigger] types[i]).is_complete()
}

/// `b` can be the first byte of a complete type.
pub open spec fn opens_type(b: u8) -> bool {
    simple_type(b) is Some || b == ARRAY || b == MAYBE || b == STRUCT_OPEN
}

/// The text of a row of types with one more in front is the text of that
/// one followed by the text of the row.
pub proof fn lemma_texts_cons(first: SignatureView, rest: Seq<SignatureView>)
    ensures
        texts(seq![first] + rest) == first.text() + texts(rest),
{
    let all = seq![first] + rest;
    assert(all[0] == first);
    assert(all.drop_first() =~= rest);
}

/// The text of a complete type is not empty, and starts with a byte that
/// opens a type.
pub proof fn lemma_text_opens(v: SignatureView)
    requires
        v.is_complete(),
    ensures
        v.text().len() > 0,
        opens_type(v.text()[0]),
{
}

/// What `parse_one` reads is a complete type, and the bytes it read are the
/// text of that type. The same holds of `parse_fields`, for the row of
/// fields and the bracket behind it.
#[verifier::rlimit(60)]
#[verifier::spinoff_prover]
pub proof fn lemma_parse_sound(s: Seq<u8>, fields: bool)
    ensures
        !fields ==> (parse_one(s) matches Some((v, n)) ==> v.is_complete() && 0 < n <= s.len()
            && s.take(n) == v.text()),
        fields ==> (parse_fields(s) matches Some((vs, n)) ==> vs.len() > 0 && all_complete(vs)
            && 0 < n <= s.len() && s.take(n) == texts(vs) + seq![STRUCT_CLOSE]),
    decreases s.len(), (if fields { 1nat } else { 0nat }),
{
    if fields {
        lemma_parse_sound(s, false);
        if let Some((first, n)) = parse_one(s) {
            if n < s.len() && s[n] == STRUCT_CLOSE {
                let vs = seq![first];
                assert(texts(vs.drop_first()) =~= seq![]);
                assert(vs.drop_first() =~= seq![]);
                assert(texts(vs) =~= first.text());
                assert(s.take(n + 1) =~= s.take(n) + seq![STRUCT_CLOSE]);
            } else {
                lemma_parse_sound(s.skip(n), true);
                if let Some((rest, m)) = parse_fields(s.skip(n)) {
                    lemma_texts_cons(first, rest);
                    assert(s.take(n + m) =~= s.take(n) + s.skip(n).take(m));
                    assert((first.text() + texts(rest)) + seq![STRUCT_CLOSE] =~= first.text() + (
                    texts(rest) + seq![STRUCT_CLOSE]));
                }
            }
        }
    } else if s.len() == 0 {
    } else if simple_type(s[0]) is Some {
        assert(s.take(1) =~= seq![s[0]]);
    } else if s[0] == ARRAY && s.len() > 1 && s[1] == DICT_OPEN {
        if s.len() > 2 && simple_type(s[2]) is Some && simple_type(s[2])->0.is_basic() {
            lemma_parse_sound(s.skip(3), false);
            if let Some((value, n)) = parse_one(s.skip(3)) {
                if 3 + n < s.len() && s[3 + n] == DICT_CLOSE {
                    let key = simple_type(s[2])->0;
                    assert(key.text() =~= seq![s[2]]);
                    assert(s.take(n + 4) =~= seq![ARRAY, DICT_OPEN] + key.text() + s.skip(3).take(
                        n,
                    ) + seq![DICT_CLOSE]);
                }
            }
        }
    } else if s[0] == ARRAY {
        lemma_parse_sound(s.skip(1), false);
        if let Some((elem, n)) = parse_one(s.skip(1)) {
            assert(s.take(n + 1) =~= seq![ARRAY] + s.skip(1).take(n));
        }
    } else if s[0] == MAYBE {
        lemma_parse_sound(s.skip(1), false);
        if let Some((elem, n)) = parse_one(s.skip(1)) {
            assert(s.take(n + 1) =~= seq![MAYBE] + s.skip(1).take(n));
        }
    } else if s[0] == STRUCT_OPEN {
        lemma_parse_sound(s.skip(1), true);
        if let Some((vs, n)) = parse_fields(s.skip(1)) {
            assert(s.take(n + 1) =~= seq![STRUCT_OPEN] + s.skip(1).take(n));
            assert(seq![STRUCT_OPEN] + (texts(vs) + seq![STRUCT_CLOSE]) =~= seq![STRUCT_OPEN]
                + texts(vs) + seq![STRUCT_CLOSE]);
        }
    }
}

/// A complete type is read back from its text, whatever follows the text.
#[verifier::rlimit(60)]
#[verifier::spinoff_prover]
pub proof fn lemma_parse_complete(v: SignatureView, rest: Seq<u8>)
    requires
        v.is_complete(),
    ensures
        parse_one(v.text() + rest) == Some((v, v.text().len() as int)),
    decreases v,
{
    let s = v.text() + rest;
    match v {
        SignatureView::Array(elem) => {
            lemma_text_opens(*elem);
            assert(s[1] == elem.text()[0]);
            assert(s.skip(1) =~= elem.text() + rest);
            lemma_parse_complete(*elem, rest);
        },
        SignatureView::Maybe(elem) => {
            assert(s.skip(1) =~= elem.text() + rest);
            lemma_parse_complete(*elem, rest);
        },
        SignatureView::Dict(key, value) => {
            let tail = seq![DICT_CLOSE] + rest;
            assert(s[2] == key.text()[0]);
            assert(s.skip(3) =~= value.text() + tail);
            lemma_parse_complete(*value, tail);
            assert(s[3 + value.text().len() as int] == DICT_CLOSE);
        },
        SignatureView::Structure(fields) => {
            assert(s.skip(1) =~= texts(fields) + seq![STRUCT_CLOSE] + rest);
            lemma_parse_fields_complete(fields, rest);
        },
        _ => {},
    }
}

/// The fields of a structure are read back from their text and the closing
/// bracket, whatever follows the bracket.
#[verifier::rlimit(60)]
#[verifier::spinoff_prover]
pub proof fn lemma_parse_fields_complete(vs: Seq<SignatureView>, rest: Seq<u8>)
    requires
        vs.len() > 0,
        all_complete(vs),
    ensures
        parse_fields(texts(vs) + seq![STRUCT_CLOSE] + rest) == Some(
            (vs, texts(vs).len() as int + 1),
        ),
    decreases vs,
{
    let s = texts(vs) + seq![STRUCT_CLOSE] + rest;
    let first = vs[0];
    let others = vs.drop_first();
    let n = first.text().len() as int;
    let behind = texts(others) + seq![STRUCT_CLOSE] + rest;
    assert(first.is_complete());
    assert(s =~= first.text() + behind);
    lemma_parse_complete(first, behind);
    lemma_text_opens(first);
    assert(seq![first] + others =~= vs);
    if others.len() == 0 {
        assert(texts(others) =~= seq![]);
        assert(s[n] == STRUCT_CLOSE);
        assert(seq![first] =~= vs);
    } else {
        assert(others[0] == vs[1]);
        assert(all_complete(others)) by {
            assert forall|i: int| 0 <= i < others.len() implies (#[trigger] others[i]).is_complete() by {
                assert(others[i] == vs[i + 1]);
            }
        }
        lemma_text_opens(others[0]);
        assert(texts(others) == others[0].text() + texts(others.drop_first()));
        assert(s[n] == others[0].text()[0]);
        assert(s.skip(n) =~= behind);
        lemma_parse_fields_complete(others, rest);
    }
}

/// A row of complete types is read back from its text.
pub proof fn lemma_parse_all_complete(vs: Seq<SignatureView>)
    requires
        all_complete(vs),
    ensures
        parse_all(texts(vs)) == Some(vs),
    decreases vs.len(),
{
    let s = texts(vs);
    if vs.len() == 0 {
        assert(vs =~= seq![]);
    } else {
        let first = vs[0];
        let others = vs.drop_first();
        let n = first.text().len() as int;
        assert(first.is_complete());
        lemma_parse_complete(first, texts(others));
        lemma_text_opens(first);
        assert(all_complete(others)) by {
            assert forall|i: int| 0 <= i < others.len() implies (#[trigger] others[i]).is_complete() by {
                assert(others[i] == vs[i + 1]);
            }
        }
        assert(s.skip(n) =~= texts(others));
        lemma_parse_all_complete(others);
        assert(seq![first] + others =~= vs);
    }
}

/// What `parse_all` reads is a row of complete types whose text is all of
/// what was read.
pub proof fn lemma_parse_all_sound(s: Seq<u8>)
    ensures
        parse_all(s) matches Some(vs) ==> all_complete(vs) && texts(vs) == s,
    decreases s.len(),
{
    if s.len() > 0 {
        lemma_parse_sound(s, false);
        if let Some((first, n)) = parse_one(s) {
            lemma_parse_all_sound(s.skip(n));
            if let Some(rest) = parse_all(s.skip(n)) {
                lemma_texts_cons(first, rest);
                assert(s =~= s.take(n) + s.skip(n));
            }
        }
    } else {
        assert(s =~= seq![]);
    }
}

/// The text of a well-formed signature of at most 255 bytes is read back as
/// the same signature.
pub proof fn lemma_signature_reads_back(v: SignatureView)
    requires
        v.is_well_formed(),
        v.text().len() <= MAX_SIGNATURE_LEN,
    ensures
        parse_signature(v.text()) == Some(v),
{
    if v is Unit {
        assert(parse_all(v.text()) == Some(Seq::<SignatureView>::empty()));
    } else {
        let row = seq![v];
        assert(texts(row.drop_first()) =~= seq![]) by {
            assert(row.drop_first() =~= seq![]);
        }
        assert(texts(row) =~= v.text());
        lemma_parse_all_complete(row);
    }
}

/// What is read as a signature is well formed, and the bytes read are its
/// text; for a row of several types, which is read as a structure, they are
/// the text of its fields.
pub proof fn lemma_signature_sound(s: Seq<u8>)
    ensures
        parse_signature(s) matches Some(v) ==> v.is_well_formed() && s.len() <= MAX_SIGNATURE_LEN
            && (v.text() == s || (v matches SignatureView::Structure(fields) && fields.len() >= 2
            && texts(fields) == s)),
{
    lemma_parse_all_sound(s);
    if s.len() <= MAX_SIGNATURE_LEN {
        if let Some(types) = parse_all(s) {
            if types.len() == 1 {
                assert(texts(types.drop_first()) =~= seq![]) by {
                    assert(types.drop_first() =~= seq![]);
                }
                assert(texts(types) =~= types[0].text());
            }
        }
    }
}

/// What is read when `done` was read before and `rest` is read behind it,
/// `taken` bytes further on.
pub open spec fn read_behind(
    done: Seq<SignatureView>,
    taken: int,
    rest: Option<(Seq<SignatureView>, int)>,
) -> Option<(Seq<SignatureView>, int)> {
    match rest {
        Some((more, n)) => Some((done + more, taken + n)),
        None => None,
    }
}

/// The row that is read when `done` was read before and `rest` behind it.
pub open spec fn row_behind(done: Seq<SignatureView>, rest: Option<Seq<SignatureView>>) -> Option<
    Seq<SignatureView>,
> {
    match rest {
        Some(more) => Some(done + more),
        None => None,
    }
}

/// The type that a single byte spells, if it spells one.
pub fn simple(b: u8) -> (r: Option<Signature>)
    ensures
        match simple_type(b) {
            Some(v) => r matches Some(sig) && sig@ == v,
            None => r is None,
        },
{
    if b == 0x79 {
        Some(Signature::U8)
    } else if b == 0x62 {
        Some(Signature::Bool)
    } else if b == 0x6e {
        Some(Signature::I16)
    } else if b == 0x71 {
        Some(Signature::U16)
    } else if b == 0x69 {
        Some(Signature::I32)
    } else if b == 0x75 {
        Some(Signature::U32)
    } else if b == 0x78 {
        Some(Signature::I64)
    } else if b == 0x74 {
        Some(Signature::U64)
    } else if b == 0x64 {
        Some(Signature::F64)
    } else if b == 0x73 {
        Some(Signature::Str)
    } else if b == 0x67 {
        Some(Signature::Signature)
    } else if b == 0x6f {
        Some(Signature::ObjectPath)
    } else if b == 0x76 {
        Some(Signature::Variant)
    } else if b == 0x68 {
        Some(Signature::Fd)
    } else {
        None
    }
}

/// Reads one complete type from `bytes` at `pos`: the type, and the
/// position behind it.
#[verifier::rlimit(60)]
#[verifier::spinoff_prover]
pub fn parse_type(bytes: &[u8], pos: usize) -> (r: Option<(Signature, usize)>)
    requires
        pos <= bytes.len(),
    ensures
        match parse_one(bytes@.skip(pos as int)) {
            Some((v, n)) => r matches Some((sig, end)) && sig@ == v && end == pos + n && end
                <= bytes.len(),
            None => r is None,
        },
    decreases bytes.len() - pos, 0nat,
{
    let ghost s = bytes@.skip(pos as int);
    proof {
        lemma_parse_sound(s, false);
    }
    let len = bytes.len();
    if pos >= len {
        return None;
    }
    let b = bytes[pos];
    assert(s[0] == b);
    if let Some(sig) = simple(b) {
        return Some((sig, pos + 1));
    }
    if b == ARRAY && len - pos > 1 && bytes[pos + 1] == DICT_OPEN {
        assert(s[1] == DICT_OPEN);
        if len - pos <= 2 {
            return None;
        }
        assert(s[2] == bytes[pos + 2]);
        let key = match simple(bytes[pos + 2]) {
            Some(key) => key,
            None => {
                return None;
            },
        };
        if !key.is_basic() {
            return None;
        }
        assert(s.skip(3) =~= bytes@.skip(pos + 3));
        proof {
            lemma_parse_sound(s.skip(3), false);
        }
        match parse_type(bytes, pos + 3) {
            Some((value, end)) => {
                if end < len && bytes[end] == DICT_CLOSE {
                    assert(s[3 + (end - (pos + 3))] == bytes[end as int]);
                    Some((Signature::Dict { key: Box::new(key), value: Box::new(value) }, end + 1))
                } else {
                    assert(end < len ==> s[3 + (end - (pos + 3))] == bytes[end as int]);
                    None
                }
            },
            None => None,
        }
    } else if b == ARRAY {
        assert(len - pos > 1 ==> s[1] == bytes[pos + 1]);
        assert(s.skip(1) =~= bytes@.skip(pos + 1));
        match parse_type(bytes, pos + 1) {
            Some((elem, end)) => Some((Signature::Array(Box::new(elem)), end)),
            None => None,
        }
    } else if b == MAYBE {
        assert(s.skip(1) =~= bytes@.skip(pos + 1));
        match parse_type(bytes, pos + 1) {
            Some((elem, end)) => Some((Signature::Maybe(Box::new(elem)), end)),
            None => None,
        }
    } else if b == STRUCT_OPEN {
        assert(s.skip(1) =~= bytes@.skip(pos + 1));
        proof {
            lemma_parse_sound(s.skip(1), true);
        }
        match parse_struct_fields(bytes, pos + 1) {
            Some((fields, end)) => {
                proof {
                    lemma_structure_view(fields);
                }
                Some((Signature::Structure(fields), end))
            },
            None => None,
        }
    } else {
        None
    }
}

/// Reads the fields of a structure from `bytes` at `pos`, behind the
/// opening bracket: the fields, and the position behind the closing bracket.
#[verifier::rlimit(60)]
#[verifier::spinoff_prover]
pub fn parse_struct_fields(bytes: &[u8], pos: usize) -> (r: Option<(Vec<Signature>, usize)>)
    requires
        pos <= bytes.len(),
    ensures
        match parse_fields(bytes@.skip(pos as int)) {
            Some((vs, n)) => r matches Some((fields, end)) && views(fields@) == vs && end == pos
                + n && end <= bytes.len(),
            None => r is None,
        },
    decreases bytes.len() - pos, 1nat,
{
    let ghost whole = parse_fields(bytes@.skip(pos as int));
    let len = bytes.len();
    let mut fields: Vec<Signature> = Vec::new();
    let mut cur: usize = pos;
    assert(views(fields@) =~= seq![]);
    assert(whole == read_behind(views(fields@), 0, whole)) by {
        if let Some((more, n)) = whole {
            assert(views(fields@) + more =~= more);
        }
    }
    loop
        invariant
            pos <= cur <= len,
            len == bytes.len(),
            whole == parse_fields(bytes@.skip(pos as int)),
            whole == read_behind(
                views(fields@),
                cur - pos,
                parse_fields(bytes@.skip(cur as int)),
            ),
        decreases len - cur,
    {
        let ghost s = bytes@.skip(cur as int);
        let ghost done = views(fields@);
        proof {
            lemma_parse_sound(s, false);
        }
        match parse_type(bytes, cur) {
            None => {
                return None;
            },
            Some((field, end)) => {
                let ghost v = field@;
                let ghost n = end - cur;
                fields.push(field);
                assert(views(fields@) =~= done + seq![v]);
                if end < len && bytes[end] == STRUCT_CLOSE {
                    assert(s[n] == STRUCT_CLOSE);
                    return Some((fields, end + 1));
                }
                assert(end < len ==> s[n] == bytes[end as int]);
                assert(s.skip(n) =~= bytes@.skip(end as int));
                proof {
                    let rest = parse_fields(bytes@.skip(end as int));
                    if let Some((more, m)) = rest {
                        assert(done + (seq![v] + more) =~= (done + seq![v]) + more);
                    }
                }
                cur = end;
            },
        }
    }
}

/// Reads `s` as a row of complete types: at most 255 bytes that spell
/// complete types from the first byte to the last.
pub open spec fn parse_types(s: Seq<u8>) -> Option<Seq<SignatureView>> {
    if s.len() > MAX_SIGNATURE_LEN {
        None
    } else {
        parse_all(s)
    }
}

/// Reads all of `bytes` as a signature.
pub fn parse(bytes: &[u8]) -> (r: Option<Signature>)
    ensures
        match parse_signature(bytes@) {
            Some(v) => r matches Some(sig) && sig@ == v,
            None => r is None,
        },
{
    let mut types = match parse_row(bytes) {
        Some(types) => types,
        None => {
            return None;
        },
    };
    if types.len() == 0 {
        Some(Signature::Unit)
    } else if types.len() == 1 {
        let ghost row = views(types@);
        let one = types.pop();
        assert(one->0@ == row[0]);
        one
    } else {
        proof {
            lemma_structure_view(types);
        }
        Some(Signature::Structure(types))
    }
}

/// Reads all of `bytes` as a row of complete types.
#[verifier::rlimit(60)]
#[verifier::spinoff_prover]
pub fn parse_row(bytes: &[u8]) -> (r: Option<Vec<Signature>>)
    ensures
        match parse_types(bytes@) {
            Some(row) => r matches Some(types) && views(types@) == row,
            None => r is None,
        },
{
    let len = bytes.len();
    if len > MAX_SIGNATURE_LEN {
        return None;
    }
    let ghost whole = parse_all(bytes@);
    let mut types: Vec<Signature> = Vec::new();
    let mut cur: usize = 0;
    assert(views(types@) =~= seq![]);
    assert(bytes@.skip(0) =~= bytes@);
    assert(whole == row_behind(views(types@), whole)) by {
        if let Some(more) = whole {
            assert(views(types@) + more =~= more);
        }
    }
    while cur < len
        invariant
            cur <= len,
            len == bytes.len(),
            whole == parse_all(bytes@),
            whole == row_behind(views(types@), parse_all(bytes@.skip(cur as int))),
        decreases len - cur,
    {
        let ghost s = bytes@.skip(cur as int);
        let ghost done = views(types@);
        proof {
            lemma_parse_sound(s, false);
        }
        match parse_type(bytes, cur) {
            None => {
                return None;
            },
            Some((one, end)) => {
                let ghost v = one@;
                types.push(one);
                assert(views(types@) =~= done + seq![v]);
                assert(s.skip(end - cur) =~= bytes@.skip(end as int));
                proof {
                    if let Some(more) = parse_all(bytes@.skip(end as int)) {
                        assert(done + (seq![v] + more) =~= (done + seq![v]) + more);
                    }
                }
                cur = end;
            },
        }
    }
    assert(parse_all(bytes@.skip(cur as int)) == Some(Seq::<SignatureView>::empty()));
    assert(views(types@) + Seq::<SignatureView>::empty() =~= views(types@));
    Some(types)
}

impl Signature {
    /// Reads `text` as a signature.
    ///
    /// The empty text is the unit; the text of one complete type is that
    /// type; the texts of several complete types in a row are a structure of
    /// them. Text that is longer than 255 bytes, or that does not spell
    /// complete types from its first byte to its last, is no signature.
    pub fn from_str(text: &str) -> (r: Result<Signature, Error>)
        ensures
            match parse_signature(text.spec_bytes()) {
                Some(v) => r matches Ok(sig) && sig@ == v,
                None => r matches Err(Error::InvalidSignature(t)) && t@ == text@,
            },
    {
        match parse(text.as_bytes()) {
            Some(sig) => Ok(sig),
            None => Err(Error::InvalidSignature(text.to_owned())),
        }
    }

    /// The signature of a dictionary with the given types of key and value.
    pub fn dict(key: Signature, value: Signature) -> (r: Signature)
        ensures
            r@ == SignatureView::Dict(Box::new(key@), Box::new(value@)),
    {
        Signature::Dict { key: Box::new(key), value: Box::new(value) }
    }

    /// The signature of an array with the given type of element.
    pub fn array(elem: Signature) -> (r: Signature)
        ensures
            r@ == SignatureView::Array(Box::new(elem@)),
    {
        Signature::Array(Box::new(elem))
    }

    /// The signature of a structure with the given types of fields.
    pub fn structure(fields: Vec<Signature>) -> (r: Signature)
        ensures
            r@ == SignatureView::Structure(views(fields@)),
    {
        proof {
            lemma_structure_view(fields);
        }
        Signature::Structure(fields)
    }
}

} // verus!
