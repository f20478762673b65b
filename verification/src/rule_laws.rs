//! Why the text of a match rule is read back as the rule.

use vstd::prelude::*;
use vstd::utf8::{decode_utf8, encode_utf8, valid_utf8};
use crate::match_rule::{
    arg_index, arg_key, clause_of, first_of, index_digits, key_arg, key_arg0namespace,
    key_destination, key_eavesdrop, key_interface, key_member, key_path, key_path_namespace,
    key_sender, key_type, lemma_first_of_is, parse_clause, parse_clauses, rule_bytes, type_of,
    type_word, word_error, word_false, word_method_call, word_method_return, word_signal,
    word_true, ClauseView, COMMA, EQUALS, MAX_ARG, QUOTE,
};
use crate::message::{is_bus_name, Type};
use crate::names::interface_name::is_interface_name;
use crate::names::member_name::is_member_name;
use crate::names::object_path::is_object_path;
use crate::names::unique_name::is_unique_name;
use crate::text::{is_ascii_bytes, lemma_ascii_text};

verus! {

/// The byte `b` does not occur in `s`.
pub open spec fn has_no(s: Seq<u8>, b: u8) -> bool {
    forall|i: int| 0 <= i < s.len() ==> #[trigger] s[i] != b
}

/// The clause is one that the text of a rule can spell: its value is one
/// that its key takes, the index of an argument is no more than 63, and
/// there is neither a quote nor a comma in its value.
pub open spec fn is_spellable(c: ClauseView) -> bool {
    &&& has_no(c.value_bytes(), QUOTE)
    &&& has_no(c.value_bytes(), COMMA)
    &&& match c {
        ClauseView::Type(_) | ClauseView::Eavesdrop(_) => true,
        ClauseView::Sender(s) => is_bus_name(encode_utf8(s)),
        ClauseView::Interface(s) => is_interface_name(encode_utf8(s)),
        ClauseView::Member(s) => is_member_name(encode_utf8(s)),
        ClauseView::Path(s) | ClauseView::PathNamespace(s) => is_object_path(encode_utf8(s)),
        ClauseView::Destination(s) => is_unique_name(encode_utf8(s)),
        ClauseView::Arg(n, _) | ClauseView::ArgPath(n, _) => n <= MAX_ARG,
        ClauseView::Arg0Namespace(s) => encode_utf8(s).len() > 0,
    }
}

/// Where a byte does not occur in `s`, its first place in `s`, followed by
/// the byte and more, is behind `s`.
pub proof fn lemma_first_behind(s: Seq<u8>, b: u8, rest: Seq<u8>)
    requires
        has_no(s, b),
    ensures
        first_of(s, b) == s.len(),
        first_of(s + seq![b] + rest, b) == s.len(),
{
    lemma_first_of_is(s, b, s.len() as int);
    let all = s + seq![b] + rest;
    assert(all[s.len() as int] == b);
    assert forall|k: int| 0 <= k < s.len() implies all[k] != b by {
        assert(all[k] == s[k]);
    }
    lemma_first_of_is(all, b, s.len() as int);
}

/// The digits of an index of at most 63 spell that index, and are digits.
pub proof fn lemma_index_digits(n: u8)
    requires
        n <= MAX_ARG,
    ensures
        arg_index(index_digits(n)) == Some(n),
        1 <= index_digits(n).len() <= 2,
        forall|i: int|
            0 <= i < index_digits(n).len() ==> 0x30 <= #[trigger] index_digits(n)[i] <= 0x39,
{
    let d = index_digits(n);
    if n < 10 {
        assert(d[0] == 0x30 + n);
    } else {
        assert(d[0] == 0x30 + n / 10);
        assert(d[1] == 0x30 + n % 10);
        assert((d[0] - 0x30) * 10 + (d[1] - 0x30) == n);
    }
}

/// `b` is a lower-case letter, a digit or an underscore.
pub open spec fn is_word_byte(b: u8) -> bool {
    (0x61 <= b <= 0x7a) || (0x30 <= b <= 0x39) || b == 0x5f
}

/// Every byte of `s` is a lower-case letter, a digit or an underscore.
pub open spec fn is_word(s: Seq<u8>) -> bool {
    forall|i: int| 0 <= i < s.len() ==> is_word_byte(#[trigger] s[i])
}

/// The keys `type`, `sender`, `interface`, `member` and `path` are words.
#[verifier::rlimit(60)]
#[verifier::spinoff_prover]
pub proof fn lemma_short_keys_are_words()
    ensures
        is_word(key_type()),
        is_word(key_sender()),
        is_word(key_interface()),
        is_word(key_member()),
        is_word(key_path()),
        is_word(key_arg()),
{
}

/// The keys `path_namespace`, `destination`, `eavesdrop` and
/// `arg0namespace` are words.
#[verifier::rlimit(60)]
#[verifier::spinoff_prover]
pub proof fn lemma_long_keys_are_words()
    ensures
        is_word(key_path_namespace()),
        is_word(key_destination()),
        is_word(key_eavesdrop()),
        is_word(key_arg0namespace()),
{
}

/// The key of a clause is a word, and not empty.
#[verifier::rlimit(60)]
#[verifier::spinoff_prover]
pub proof fn lemma_key_is_word(c: ClauseView)
    requires
        c matches ClauseView::Arg(n, _) ==> n <= MAX_ARG,
        c matches ClauseView::ArgPath(n, _) ==> n <= MAX_ARG,
    ensures
        is_word(c.key_bytes()),
        c.key_bytes().len() > 0,
{
    lemma_short_keys_are_words();
    lemma_long_keys_are_words();
    let key = c.key_bytes();
    match c {
        ClauseView::Arg(n, _) => {
            lemma_index_digits(n);
            let d = index_digits(n);
            assert forall|i: int| 0 <= i < key.len() implies is_word_byte(#[trigger] key[i]) by {
                if i >= 3 {
                    assert(key[i] == d[i - 3]);
                } else {
                    assert(key[i] == key_arg()[i]);
                }
            }
        },
        ClauseView::ArgPath(n, _) => {
            lemma_index_digits(n);
            let d = index_digits(n);
            assert forall|i: int| 0 <= i < key.len() implies is_word_byte(#[trigger] key[i]) by {
                if i < 3 {
                    assert(key[i] == key_arg()[i]);
                } else if i < 3 + d.len() {
                    assert(key[i] == d[i - 3]);
                } else {
                    assert(key[i] == key_path()[i - 3 - d.len()]);
                }
            }
        },
        _ => {},
    }
}

/// The key of a clause has no equals sign, no comma and no quote in it.
pub proof fn lemma_key_is_clean(c: ClauseView)
    requires
        is_spellable(c),
    ensures
        has_no(c.key_bytes(), EQUALS),
        has_no(c.key_bytes(), COMMA),
        has_no(c.key_bytes(), QUOTE),
        c.key_bytes().len() > 0,
{
    lemma_key_is_word(c);
    let key = c.key_bytes();
    assert forall|i: int| 0 <= i < key.len() implies key[i] != EQUALS && key[i] != COMMA && key[i]
        != QUOTE by {
        assert(is_word_byte(key[i]));
    }
}

/// The value of a clause is text, and its text is read back from it.
pub proof fn lemma_value_is_text(c: ClauseView)
    ensures
        valid_utf8(c.value_bytes()),
        match c {
            ClauseView::Type(_) | ClauseView::Eavesdrop(_) => true,
            ClauseView::Sender(s)
            | ClauseView::Interface(s)
            | ClauseView::Member(s)
            | ClauseView::Path(s)
            | ClauseView::PathNamespace(s)
            | ClauseView::Destination(s)
            | ClauseView::Arg(_, s)
            | ClauseView::ArgPath(_, s)
            | ClauseView::Arg0Namespace(s) => decode_utf8(c.value_bytes()) == s,
        },
{
    match c {
        ClauseView::Type(t) => {
            assert(is_ascii_bytes(type_word(t)));
            lemma_ascii_text(type_word(t));
        },
        ClauseView::Eavesdrop(b) => {
            assert(is_ascii_bytes(c.value_bytes()));
            lemma_ascii_text(c.value_bytes());
        },
        ClauseView::Sender(s)
        | ClauseView::Interface(s)
        | ClauseView::Member(s)
        | ClauseView::Path(s)
        | ClauseView::PathNamespace(s)
        | ClauseView::Destination(s)
        | ClauseView::Arg(_, s)
        | ClauseView::ArgPath(_, s)
        | ClauseView::Arg0Namespace(s) => {
            vstd::utf8::encode_utf8_valid_utf8(s);
            vstd::utf8::encode_utf8_decode_utf8(s);
        },
    }
}

/// A key and a value that a clause spells stand for that clause.
#[verifier::rlimit(100)]
#[verifier::spinoff_prover]
pub proof fn lemma_clause_of(c: ClauseView)
    requires
        is_spellable(c),
    ensures
        clause_of(c.key_bytes(), c.value_bytes(), decode_utf8(c.value_bytes())) == Some(c),
{
    lemma_value_is_text(c);
    let key = c.key_bytes();
    let value = c.value_bytes();
    // the first bytes of the keys, by which keys of one length differ
    assert(key_type()[0] == 0x74 && key_path()[0] == 0x70);
    assert(key_sender()[0] == 0x73 && key_member()[0] == 0x6d);
    assert(key_interface()[0] == 0x69 && key_eavesdrop()[0] == 0x65);
    assert(key_arg()[0] == 0x61 && key_arg0namespace()[0] == 0x61);
    assert(key_destination().len() == 11 && key_path_namespace().len() == 14);
    assert(key_arg0namespace().len() == 13);
    match c {
        ClauseView::Type(t) => {
            assert(word_signal()[0] == 0x73 && word_error()[0] == 0x65);
            assert(word_method_call()[7] == 0x63 && word_method_return()[7] == 0x72);
            assert(type_of(type_word(t)) == Some(t));
        },
        ClauseView::Eavesdrop(b) => {
            assert(word_true()[0] == 0x74 && word_false()[0] == 0x66);
        },
        ClauseView::Arg(n, s) => {
            lemma_index_digits(n);
            let d = index_digits(n);
            assert(key[0] == key_arg()[0]);
            assert(key.take(3) =~= key_arg());
            assert(key.skip(3) =~= d);
            assert(key.len() == 3 + d.len());
            assert(arg_key(key) == Some((n, false)));
        },
        ClauseView::ArgPath(n, s) => {
            lemma_index_digits(n);
            let d = index_digits(n);
            let rest = key.skip(3);
            assert(key[0] == key_arg()[0]);
            assert(key.take(3) =~= key_arg());
            assert(rest =~= d + key_path());
            assert(rest.skip(rest.len() - 4) =~= key_path());
            assert(rest.take(rest.len() - 4) =~= d);
            assert(key.len() == 7 + d.len());
            assert(arg_key(key) == Some((n, true)));
        },
        _ => {},
    }
}

/// The text of a clause is read back as the clause.
#[verifier::rlimit(60)]
#[verifier::spinoff_prover]
pub proof fn lemma_clause_reads_back(c: ClauseView)
    requires
        is_spellable(c),
    ensures
        parse_clause(c.bytes()) == Some(c),
        has_no(c.bytes(), COMMA),
{
    let key = c.key_bytes();
    let value = c.value_bytes();
    let item = c.bytes();
    lemma_key_is_clean(c);
    lemma_value_is_text(c);
    lemma_clause_of(c);
    assert(item =~= key + seq![EQUALS] + (seq![QUOTE] + value + seq![QUOTE]));
    lemma_first_behind(key, EQUALS, seq![QUOTE] + value + seq![QUOTE]);
    let e = key.len() as int;
    assert(item.take(e) =~= key);
    let quoted = item.skip(e + 1);
    assert(quoted =~= seq![QUOTE] + value + seq![QUOTE]);
    assert(quoted.subrange(1, quoted.len() - 1) =~= value);
    lemma_first_behind(value, QUOTE, seq![]);
    assert forall|i: int| 0 <= i < item.len() implies #[trigger] item[i] != COMMA by {
        if i < key.len() {
            assert(item[i] == key[i]);
        } else if i < key.len() + 2 {
        } else if i < key.len() + 2 + value.len() {
            assert(item[i] == value[i - key.len() - 2]);
        } else {
        }
    }
}

/// The text of a rule starts with its first clause; behind a comma, the
/// text of the rule of the other clauses follows.
pub proof fn lemma_rule_front(clauses: Seq<ClauseView>)
    requires
        clauses.len() > 0,
    ensures
        rule_bytes(clauses) == if clauses.len() == 1 {
            clauses[0].bytes()
        } else {
            clauses[0].bytes() + seq![COMMA] + rule_bytes(clauses.drop_first())
        },
    decreases clauses.len(),
{
    if clauses.len() > 1 {
        let front = clauses.drop_last();
        let back = clauses.drop_first();
        lemma_rule_front(front);
        assert(front[0] == clauses[0]);
        if clauses.len() == 2 {
            assert(back.len() == 1);
            assert(back[0] == clauses.last());
            assert(rule_bytes(back) == clauses.last().bytes());
            assert(rule_bytes(front) == clauses[0].bytes());
        } else {
            assert(front.drop_first() =~= back.drop_last());
            assert(back.last() == clauses.last());
            assert(rule_bytes(clauses) =~= clauses[0].bytes() + seq![COMMA] + (rule_bytes(
                back.drop_last(),
            ) + seq![COMMA] + back.last().bytes()));
        }
    }
}

/// A rule is read back from its text: where every clause is one that the
/// text of a rule can spell, reading the text that is written for the
/// clauses gives the clauses, one for one.
#[verifier::rlimit(60)]
#[verifier::spinoff_prover]
pub proof fn lemma_rule_reads_back(clauses: Seq<ClauseView>)
    requires
        clauses.len() > 0,
        forall|i: int| 0 <= i < clauses.len() ==> is_spellable(#[trigger] clauses[i]),
    ensures
        parse_clauses(rule_bytes(clauses)) == Some(clauses),
    decreases clauses.len(),
{
    let first = clauses[0];
    let item = first.bytes();
    let text = rule_bytes(clauses);
    lemma_rule_front(clauses);
    lemma_clause_reads_back(first);
    if clauses.len() == 1 {
        lemma_first_behind(item, COMMA, seq![]);
        assert(text.take(item.len() as int) =~= item);
        assert(clauses =~= seq![first]);
    } else {
        let others = clauses.drop_first();
        let behind = rule_bytes(others);
        lemma_first_behind(item, COMMA, behind);
        assert(text.take(item.len() as int) =~= item);
        assert(text.skip(item.len() as int + 1) =~= behind);
        assert forall|i: int| 0 <= i < others.len() implies is_spellable(#[trigger] others[i]) by {
            assert(others[i] == clauses[i + 1]);
        }
        lemma_rule_reads_back(others);
        assert(seq![first] + others =~= clauses);
    }
}

} // verus!
