//! Match rules: the filters that say which messages a subscriber wants.

use vstd::prelude::*;
use vstd::string::StringSliceAdditionalSpecFns;
use vstd::slice::slice_subrange;
use vstd::utf8::{decode_utf8, encode_utf8, valid_utf8};
use crate::message::{description_of, Header, Message, MessageView, Type};
use crate::names::unique_name::is_unique_name;
use crate::text::{bytes_eq, from_utf8, str_eq};
use crate::wire::dbus::decoded_fields;
use crate::wire::signature::views;
use crate::wire::value::{value_trees, Value, ValueView};

verus! {

/// The highest index of an argument that a rule can speak of.
pub const MAX_ARG: u8 = 63;

/// The byte that separates the elements of a path.
pub const SLASH: u8 = 0x2f;

/// The byte that separates the elements of a name.
pub const DOT: u8 = 0x2e;

/// One condition of a match rule.
#[derive(Debug, PartialEq, Eq)]
pub enum Clause {
    /// The message is of this kind.
    Type(Type),
    /// The message comes from this connection.
    Sender(String),
    /// The message names this interface.
    Interface(String),
    /// The message names this member.
    Member(String),
    /// The message names the object at this path.
    Path(String),
    /// The message names the object at this path or one below it.
    PathNamespace(String),
    /// The message is meant for this connection.
    Destination(String),
    /// The subscriber wants messages that are meant for others too. This
    /// says nothing about a message: it holds of every one.
    Eavesdrop(bool),
    /// The argument with this index is this string.
    Arg(u8, String),
    /// The argument with this index is a string or a path that is this
    /// path, or one of the two ends in a slash and starts the other.
    ArgPath(u8, String),
    /// The first argument is a string that is this name or continues it
    /// behind a dot.
    Arg0Namespace(String),
}

/// `path` is the path `namespace` or lies below it. Everything lies below
/// the root.
pub open spec fn in_path_namespace(path: Seq<u8>, namespace: Seq<u8>) -> bool {
    ||| path == namespace
    ||| namespace == seq![SLASH]
    ||| (namespace + seq![SLASH]).is_prefix_of(path)
}

/// `name` is the name `namespace` or continues it behind a dot.
pub open spec fn in_name_namespace(name: Seq<u8>, namespace: Seq<u8>) -> bool {
    ||| name == namespace
    ||| (namespace + seq![DOT]).is_prefix_of(name)
}

/// The paths `a` and `b` match as arguments: they are the same, or one of
/// them ends in a slash and starts the other.
pub open spec fn paths_match(a: Seq<u8>, b: Seq<u8>) -> bool {
    ||| a == b
    ||| (a.len() > 0 && a.last() == SLASH && a.is_prefix_of(b))
    ||| (b.len() > 0 && b.last() == SLASH && b.is_prefix_of(a))
}

/// The text of the argument with index `n`, if there is one and it is a
/// string.
pub open spec fn string_arg(args: Seq<ValueView>, n: int) -> Option<Seq<char>> {
    if 0 <= n < args.len() && args[n] is Str {
        Some(args[n]->Str_0)
    } else {
        None
    }
}

/// The text of the argument with index `n`, if there is one and it is a
/// string or an object path.
pub open spec fn path_arg(args: Seq<ValueView>, n: int) -> Option<Seq<char>> {
    if 0 <= n < args.len() && args[n] is Str {
        Some(args[n]->Str_0)
    } else if 0 <= n < args.len() && args[n] is ObjectPath {
        Some(args[n]->ObjectPath_0)
    } else {
        None
    }
}

impl Clause {
    /// The clause holds of a message with the header `h` and the
    /// arguments `args`.
    ///
    /// A sender that is given by a well-known name holds of every message:
    /// who owns the name is known to the bus alone.
    pub open spec fn holds(&self, h: &Header, args: Seq<ValueView>) -> bool {
        match self {
            Clause::Type(t) => h.msg_type == *t,
            Clause::Sender(s) => !is_unique_name(encode_utf8(s@)) || (h.sender matches Some(name)
                && name@ == s@),
            Clause::Interface(i) => h.interface matches Some(name) && name@ == i@,
            Clause::Member(m) => h.member matches Some(name) && name@ == m@,
            Clause::Path(p) => h.path matches Some(path) && path@ == p@,
            Clause::PathNamespace(ns) => h.path matches Some(path) && in_path_namespace(
                encode_utf8(path@),
                encode_utf8(ns@),
            ),
            Clause::Destination(d) => h.destination matches Some(name) && name@ == d@,
            Clause::Eavesdrop(_) => true,
            Clause::Arg(n, s) => string_arg(args, *n as int) == Some(s@),
            Clause::ArgPath(n, p) => path_arg(args, *n as int) matches Some(arg) && paths_match(
                encode_utf8(arg),
                encode_utf8(p@),
            ),
            Clause::Arg0Namespace(ns) => string_arg(args, 0) matches Some(arg)
                && in_name_namespace(encode_utf8(arg), encode_utf8(ns@)),
        }
    }
}

/// Every clause in `clauses` holds of the message with the header `h` and
/// the arguments `args`.
pub open spec fn all_hold(clauses: Seq<Clause>, h: &Header, args: Seq<ValueView>) -> bool {
    forall|i: int| 0 <= i < clauses.len() ==> (#[trigger] clauses[i]).holds(h, args)
}

/// The arguments of the message `m`: the values of its body, or none where
/// the body cannot be read.
pub open spec fn args_of(m: MessageView) -> Seq<ValueView> {
    match decoded_fields(m.header.endian, false, 0, views(m.header.signature@), m.body) {
        Ok((values, _)) => values,
        Err(_) => seq![],
    }
}

/// Tells whether `a` starts with `prefix`.
pub fn starts_with(a: &[u8], prefix: &[u8]) -> (r: bool)
    ensures
        r == prefix@.is_prefix_of(a@),
{
    if prefix.len() > a.len() {
        return false;
    }
    let mut i: usize = 0;
    while i < prefix.len()
        invariant
            i <= prefix.len() <= a.len(),
            forall|k: int| 0 <= k < i ==> a@[k] == prefix@[k],
        decreases prefix.len() - i,
    {
        if a[i] != prefix[i] {
            assert(a@.subrange(0, prefix@.len() as int)[i as int] != prefix@[i as int]);
            return false;
        }
        i += 1;
    }
    assert(a@.subrange(0, prefix@.len() as int) =~= prefix@);
    true
}

/// Tells whether `a` starts with `prefix` and the byte `sep` behind it.
pub fn continues(a: &[u8], prefix: &[u8], sep: u8) -> (r: bool)
    ensures
        r == (prefix@ + seq![sep]).is_prefix_of(a@),
{
    let ghost whole = prefix@ + seq![sep];
    if a.len() <= prefix.len() {
        return false;
    }
    if !starts_with(a, prefix) {
        assert(whole.is_prefix_of(a@) ==> a@.subrange(0, prefix@.len() as int) =~= prefix@) by {
            if whole.is_prefix_of(a@) {
                assert(a@.subrange(0, whole.len() as int) == whole);
                assert forall|k: int| 0 <= k < prefix@.len() implies a@[k] == prefix@[k] by {
                    assert(a@.subrange(0, whole.len() as int)[k] == whole[k]);
                }
            }
        }
        return false;
    }
    let r = a[prefix.len()] == sep;
    proof {
        if r {
            assert(a@.subrange(0, whole.len() as int) =~= whole) by {
                assert forall|k: int| 0 <= k < whole.len() implies a@[k] == whole[k] by {
                    if k < prefix@.len() {
                        assert(a@.subrange(0, prefix@.len() as int)[k] == prefix@[k]);
                    }
                }
            }
        } else {
            if whole.is_prefix_of(a@) {
                assert(a@.subrange(0, whole.len() as int)[prefix@.len() as int] == sep);
            }
        }
    }
    r
}

/// Tells whether `path` is the path `namespace` or lies below it.
pub fn path_in_namespace(path: &[u8], namespace: &[u8]) -> (r: bool)
    ensures
        r == in_path_namespace(path@, namespace@),
{
    if bytes_eq(path, namespace) {
        return true;
    }
    if namespace.len() == 1 && namespace[0] == SLASH {
        assert(namespace@ =~= seq![SLASH]);
        return true;
    }
    continues(path, namespace, SLASH)
}

/// Tells whether two paths match as arguments.
pub fn arg_paths_match(a: &[u8], b: &[u8]) -> (r: bool)
    ensures
        r == paths_match(a@, b@),
{
    if bytes_eq(a, b) {
        return true;
    }
    if a.len() > 0 && a[a.len() - 1] == SLASH && starts_with(b, a) {
        return true;
    }
    b.len() > 0 && b[b.len() - 1] == SLASH && starts_with(a, b)
}

/// The text of the argument with index `n`, where it is a string.
fn string_at(args: &Vec<Value>, n: usize) -> (r: Option<&str>)
    ensures
        match string_arg(value_trees(args@), n as int) {
            Some(text) => r matches Some(s) && s@ == text,
            None => r is None,
        },
{
    if n >= args.len() {
        return None;
    }
    assert(value_trees(args@)[n as int] == args[n as int]@);
    match &args[n] {
        Value::Str(s) => Some(s.as_str()),
        _ => None,
    }
}

/// The text of the argument with index `n`, where it is a string or an
/// object path.
fn path_at(args: &Vec<Value>, n: usize) -> (r: Option<&str>)
    ensures
        match path_arg(value_trees(args@), n as int) {
            Some(text) => r matches Some(s) && s@ == text,
            None => r is None,
        },
{
    if n >= args.len() {
        return None;
    }
    assert(value_trees(args@)[n as int] == args[n as int]@);
    match &args[n] {
        Value::Str(s) => Some(s.as_str()),
        Value::ObjectPath(p) => Some(p.as_str()),
        _ => None,
    }
}

impl Clause {
    /// Tells whether the clause holds of a message with the header `h` and
    /// the arguments `args`.
    pub fn evaluate(&self, h: &Header, args: &Vec<Value>) -> (r: bool)
        ensures
            r == self.holds(h, value_trees(args@)),
    {
        match self {
            Clause::Type(t) => match (h.msg_type, *t) {
                (Type::MethodCall, Type::MethodCall) => true,
                (Type::MethodReturn, Type::MethodReturn) => true,
                (Type::Error, Type::Error) => true,
                (Type::Signal, Type::Signal) => true,
                _ => false,
            },
            Clause::Sender(s) => {
                if crate::names::unique_name::validate_bytes(s.as_str().as_bytes()).is_err() {
                    return true;
                }
                match &h.sender {
                    Some(name) => name.eq_str(s.as_str()),
                    None => false,
                }
            },
            Clause::Interface(i) => match &h.interface {
                Some(name) => name.eq_str(i.as_str()),
                None => false,
            },
            Clause::Member(m) => match &h.member {
                Some(name) => name.eq_str(m.as_str()),
                None => false,
            },
            Clause::Path(p) => match &h.path {
                Some(path) => path.eq_str(p.as_str()),
                None => false,
            },
            Clause::PathNamespace(ns) => match &h.path {
                Some(path) => path_in_namespace(path.as_str().as_bytes(), ns.as_str().as_bytes()),
                None => false,
            },
            Clause::Destination(d) => match &h.destination {
                Some(name) => str_eq(name.as_str(), d.as_str()),
                None => false,
            },
            Clause::Eavesdrop(_) => true,
            Clause::Arg(n, s) => match string_at(args, *n as usize) {
                Some(arg) => str_eq(arg, s.as_str()),
                None => false,
            },
            Clause::ArgPath(n, p) => match path_at(args, *n as usize) {
                Some(arg) => arg_paths_match(arg.as_bytes(), p.as_str().as_bytes()),
                None => false,
            },
            Clause::Arg0Namespace(ns) => match string_at(args, 0) {
                Some(arg) => {
                    let a = arg.as_bytes();
                    let n = ns.as_str().as_bytes();
                    bytes_eq(a, n) || continues(a, n, DOT)
                },
                None => false,
            },
        }
    }
}

/// A match rule: the clauses that a message has to meet, all of them.
#[derive(Debug, PartialEq, Eq)]
pub struct MatchRule {
    pub clauses: Vec<Clause>,
}

impl MatchRule {
    /// The rule matches a message with the header `h` and the arguments
    /// `args`: every clause of the rule holds of it.
    pub open spec fn matches(&self, h: &Header, args: Seq<ValueView>) -> bool {
        all_hold(self.clauses@, h, args)
    }

    /// Tells whether the rule matches a message with the header `h` and the
    /// arguments `args`.
    pub fn evaluate_parts(&self, h: &Header, args: &Vec<Value>) -> (r: bool)
        ensures
            r == self.matches(h, value_trees(args@)),
    {
        let mut i: usize = 0;
        while i < self.clauses.len()
            invariant
                i <= self.clauses.len(),
                forall|k: int|
                    0 <= k < i ==> (#[trigger] self.clauses@[k]).holds(h, value_trees(args@)),
            decreases self.clauses.len() - i,
        {
            if !self.clauses[i].evaluate(h, args) {
                return false;
            }
            i += 1;
        }
        true
    }

    /// Tells whether the rule matches the message: whether every clause of
    /// the rule holds of it. The arguments of the message are the values of
    /// its body; a body that cannot be read has none.
    pub fn evaluate(&self, m: &Message) -> (r: bool)
        ensures
            r == self.matches(&m@.header, args_of(m@)),
    {
        let args = match m.body_values() {
            Ok(values) => values,
            Err(_) => Vec::new(),
        };
        assert(value_trees(args@) =~= args_of(m@));
        self.evaluate_parts(m.header(), &args)
    }
}

/// A rule matches a message exactly when each of its clauses holds of the
/// message: a rule without clauses matches everything, and a rule with one
/// clause more matches what the shorter rule matches and the clause holds of.
pub proof fn lemma_rule_is_conjunction(
    rule: MatchRule,
    clause: Clause,
    h: &Header,
    args: Seq<ValueView>,
)
    ensures
        rule.clauses@.len() == 0 ==> rule.matches(h, args),
        all_hold(rule.clauses@.push(clause), h, args) <==> (rule.matches(h, args) && clause.holds(
            h,
            args,
        )),
        rule.matches(h, args) <==> forall|i: int|
            0 <= i < rule.clauses@.len() ==> (#[trigger] rule.clauses@[i]).holds(h, args),
{
    let longer = rule.clauses@.push(clause);
    if all_hold(longer, h, args) {
        assert forall|i: int| 0 <= i < rule.clauses@.len() implies (#[trigger] rule.clauses@[i]).holds(
            h,
            args,
        ) by {
            assert(longer[i] == rule.clauses@[i]);
        }
        assert(longer[rule.clauses@.len() as int] == clause);
    }
    if rule.matches(h, args) && clause.holds(h, args) {
        assert forall|i: int| 0 <= i < longer.len() implies (#[trigger] longer[i]).holds(
            h,
            args,
        ) by {
            if i < rule.clauses@.len() {
                assert(longer[i] == rule.clauses@[i]);
            }
        }
    }
}

/// The byte between the clauses of a rule.
pub const COMMA: u8 = 0x2c;

/// The byte between the key of a clause and its value.
pub const EQUALS: u8 = 0x3d;

/// The byte on either side of a value.
pub const QUOTE: u8 = 0x27;

/// The key `type`, as bytes.
pub open spec fn key_type() -> Seq<u8> {
    seq![0x74u8, 0x79, 0x70, 0x65]
}

/// The key `sender`, as bytes.
pub open spec fn key_sender() -> Seq<u8> {
    seq![0x73u8, 0x65, 0x6e, 0x64, 0x65, 0x72]
}

/// The key `interface`, as bytes.
pub open spec fn key_interface() -> Seq<u8> {
    seq![0x69u8, 0x6e, 0x74, 0x65, 0x72, 0x66, 0x61, 0x63, 0x65]
}

/// The key `member`, as bytes.
pub open spec fn key_member() -> Seq<u8> {
    seq![0x6du8, 0x65, 0x6d, 0x62, 0x65, 0x72]
}

/// The key `path`, as bytes.
pub open spec fn key_path() -> Seq<u8> {
    seq![0x70u8, 0x61, 0x74, 0x68]
}

/// The key `path_namespace`, as bytes.
pub open spec fn key_path_namespace() -> Seq<u8> {
    seq![0x70u8, 0x61, 0x74, 0x68, 0x5f, 0x6e, 0x61, 0x6d, 0x65, 0x73, 0x70, 0x61, 0x63, 0x65]
}

/// The key `destination`, as bytes.
pub open spec fn key_destination() -> Seq<u8> {
    seq![0x64u8, 0x65, 0x73, 0x74, 0x69, 0x6e, 0x61, 0x74, 0x69, 0x6f, 0x6e]
}

/// The key `eavesdrop`, as bytes.
pub open spec fn key_eavesdrop() -> Seq<u8> {
    seq![0x65u8, 0x61, 0x76, 0x65, 0x73, 0x64, 0x72, 0x6f, 0x70]
}

/// The key `arg0namespace`, as bytes.
pub open spec fn key_arg0namespace() -> Seq<u8> {
    seq![0x61u8, 0x72, 0x67, 0x30, 0x6e, 0x61, 0x6d, 0x65, 0x73, 0x70, 0x61, 0x63, 0x65]
}

/// The start of the keys that speak of an argument: `arg`.
pub open spec fn key_arg() -> Seq<u8> {
    seq![0x61u8, 0x72, 0x67]
}

/// The word `signal`, as bytes.
pub open spec fn word_signal() -> Seq<u8> {
    seq![0x73u8, 0x69, 0x67, 0x6e, 0x61, 0x6c]
}

/// The word `method_call`, as bytes.
pub open spec fn word_method_call() -> Seq<u8> {
    seq![0x6du8, 0x65, 0x74, 0x68, 0x6f, 0x64, 0x5f, 0x63, 0x61, 0x6c, 0x6c]
}

/// The word `method_return`, as bytes.
pub open spec fn word_method_return() -> Seq<u8> {
    seq![0x6du8, 0x65, 0x74, 0x68, 0x6f, 0x64, 0x5f, 0x72, 0x65, 0x74, 0x75, 0x72, 0x6e]
}

/// The word `error`, as bytes.
pub open spec fn word_error() -> Seq<u8> {
    seq![0x65u8, 0x72, 0x72, 0x6f, 0x72]
}

/// The word `true`, as bytes.
pub open spec fn word_true() -> Seq<u8> {
    seq![0x74u8, 0x72, 0x75, 0x65]
}

/// The word `false`, as bytes.
pub open spec fn word_false() -> Seq<u8> {
    seq![0x66u8, 0x61, 0x6c, 0x73, 0x65]
}

fn key_type_bytes() -> (r: [u8; 4])
    ensures
        r@ == key_type(),
        crate::text::is_ascii_bytes(r@),
{
    let r: [u8; 4] = [0x74, 0x79, 0x70, 0x65];
    assert(r@ =~= key_type());
    r
}

fn key_sender_bytes() -> (r: [u8; 6])
    ensures
        r@ == key_sender(),
        crate::text::is_ascii_bytes(r@),
{
    let r: [u8; 6] = [0x73, 0x65, 0x6e, 0x64, 0x65, 0x72];
    assert(r@ =~= key_sender());
    r
}

fn key_interface_bytes() -> (r: [u8; 9])
    ensures
        r@ == key_interface(),
        crate::text::is_ascii_bytes(r@),
{
    let r: [u8; 9] = [0x69, 0x6e, 0x74, 0x65, 0x72, 0x66, 0x61, 0x63, 0x65];
    assert(r@ =~= key_interface());
    r
}

fn key_member_bytes() -> (r: [u8; 6])
    ensures
        r@ == key_member(),
        crate::text::is_ascii_bytes(r@),
{
    let r: [u8; 6] = [0x6d, 0x65, 0x6d, 0x62, 0x65, 0x72];
    assert(r@ =~= key_member());
    r
}

fn key_path_bytes() -> (r: [u8; 4])
    ensures
        r@ == key_path(),
        crate::text::is_ascii_bytes(r@),
{
    let r: [u8; 4] = [0x70, 0x61, 0x74, 0x68];
    assert(r@ =~= key_path());
    r
}

fn key_path_namespace_bytes() -> (r: [u8; 14])
    ensures
        r@ == key_path_namespace(),
        crate::text::is_ascii_bytes(r@),
{
    let r: [u8; 14] = [0x70, 0x61, 0x74, 0x68, 0x5f, 0x6e, 0x61, 0x6d, 0x65, 0x73, 0x70, 0x61, 0x63, 0x65];
    assert(r@ =~= key_path_namespace());
    r
}

fn key_destination_bytes() -> (r: [u8; 11])
    ensures
        r@ == key_destination(),
        crate::text::is_ascii_bytes(r@),
{
    let r: [u8; 11] = [0x64, 0x65, 0x73, 0x74, 0x69, 0x6e, 0x61, 0x74, 0x69, 0x6f, 0x6e];
    assert(r@ =~= key_destination());
    r
}

fn key_eavesdrop_bytes() -> (r: [u8; 9])
    ensures
        r@ == key_eavesdrop(),
        crate::text::is_ascii_bytes(r@),
{
    let r: [u8; 9] = [0x65, 0x61, 0x76, 0x65, 0x73, 0x64, 0x72, 0x6f, 0x70];
    assert(r@ =~= key_eavesdrop());
    r
}

fn key_arg0namespace_bytes() -> (r: [u8; 13])
    ensures
        r@ == key_arg0namespace(),
        crate::text::is_ascii_bytes(r@),
{
    let r: [u8; 13] = [0x61, 0x72, 0x67, 0x30, 0x6e, 0x61, 0x6d, 0x65, 0x73, 0x70, 0x61, 0x63, 0x65];
    assert(r@ =~= key_arg0namespace());
    r
}

fn key_arg_bytes() -> (r: [u8; 3])
    ensures
        r@ == key_arg(),
        crate::text::is_ascii_bytes(r@),
{
    let r: [u8; 3] = [0x61, 0x72, 0x67];
    assert(r@ =~= key_arg());
    r
}

fn word_signal_bytes() -> (r: [u8; 6])
    ensures
        r@ == word_signal(),
        crate::text::is_ascii_bytes(r@),
{
    let r: [u8; 6] = [0x73, 0x69, 0x67, 0x6e, 0x61, 0x6c];
    assert(r@ =~= word_signal());
    r
}

fn word_method_call_bytes() -> (r: [u8; 11])
    ensures
        r@ == word_method_call(),
        crate::text::is_ascii_bytes(r@),
{
    let r: [u8; 11] = [0x6d, 0x65, 0x74, 0x68, 0x6f, 0x64, 0x5f, 0x63, 0x61, 0x6c, 0x6c];
    assert(r@ =~= word_method_call());
    r
}

fn word_method_return_bytes() -> (r: [u8; 13])
    ensures
        r@ == word_method_return(),
        crate::text::is_ascii_bytes(r@),
{
    let r: [u8; 13] = [0x6d, 0x65, 0x74, 0x68, 0x6f, 0x64, 0x5f, 0x72, 0x65, 0x74, 0x75, 0x72, 0x6e];
    assert(r@ =~= word_method_return());
    r
}

fn word_error_bytes() -> (r: [u8; 5])
    ensures
        r@ == word_error(),
        crate::text::is_ascii_bytes(r@),
{
    let r: [u8; 5] = [0x65, 0x72, 0x72, 0x6f, 0x72];
    assert(r@ =~= word_error());
    r
}

fn word_true_bytes() -> (r: [u8; 4])
    ensures
        r@ == word_true(),
        crate::text::is_ascii_bytes(r@),
{
    let r: [u8; 4] = [0x74, 0x72, 0x75, 0x65];
    assert(r@ =~= word_true());
    r
}

fn word_false_bytes() -> (r: [u8; 5])
    ensures
        r@ == word_false(),
        crate::text::is_ascii_bytes(r@),
{
    let r: [u8; 5] = [0x66, 0x61, 0x6c, 0x73, 0x65];
    assert(r@ =~= word_false());
    r
}

/// What a clause says, with its texts as characters.
pub enum ClauseView {
    Type(Type),
    Sender(Seq<char>),
    Interface(Seq<char>),
    Member(Seq<char>),
    Path(Seq<char>),
    PathNamespace(Seq<char>),
    Destination(Seq<char>),
    Eavesdrop(bool),
    Arg(u8, Seq<char>),
    ArgPath(u8, Seq<char>),
    Arg0Namespace(Seq<char>),
}

impl View for Clause {
    type V = ClauseView;

    open spec fn view(&self) -> ClauseView {
        match self {
            Clause::Type(t) => ClauseView::Type(*t),
            Clause::Sender(s) => ClauseView::Sender(s@),
            Clause::Interface(s) => ClauseView::Interface(s@),
            Clause::Member(s) => ClauseView::Member(s@),
            Clause::Path(s) => ClauseView::Path(s@),
            Clause::PathNamespace(s) => ClauseView::PathNamespace(s@),
            Clause::Destination(s) => ClauseView::Destination(s@),
            Clause::Eavesdrop(b) => ClauseView::Eavesdrop(*b),
            Clause::Arg(n, s) => ClauseView::Arg(*n, s@),
            Clause::ArgPath(n, s) => ClauseView::ArgPath(*n, s@),
            Clause::Arg0Namespace(s) => ClauseView::Arg0Namespace(s@),
        }
    }
}

/// What a row of clauses says.
pub open spec fn clause_views(clauses: Seq<Clause>) -> Seq<ClauseView> {
    Seq::new(clauses.len(), |i: int| clauses[i]@)
}

/// The position of the first byte `b` in `s`, and the length of `s` where
/// there is none.
pub open spec fn first_of(s: Seq<u8>, b: u8) -> int
    decreases s.len(),
{
    if s.len() == 0 || s[0] == b {
        0
    } else {
        1 + first_of(s.drop_first(), b)
    }
}

/// What `first_of` gives is the first position of the byte, or the length.
pub proof fn lemma_first_of(s: Seq<u8>, b: u8)
    ensures
        0 <= first_of(s, b) <= s.len(),
        first_of(s, b) < s.len() ==> s[first_of(s, b)] == b,
        forall|k: int| 0 <= k < first_of(s, b) ==> s[k] != b,
    decreases s.len(),
{
    if s.len() > 0 && s[0] != b {
        let rest = s.drop_first();
        lemma_first_of(rest, b);
        assert forall|k: int| 0 <= k < first_of(s, b) implies s[k] != b by {
            if k > 0 {
                assert(rest[k - 1] == s[k]);
            }
        }
    }
}

/// The first position of a byte is where it is found.
pub proof fn lemma_first_of_is(s: Seq<u8>, b: u8, i: int)
    requires
        0 <= i <= s.len(),
        i < s.len() ==> s[i] == b,
        forall|k: int| 0 <= k < i ==> s[k] != b,
    ensures
        first_of(s, b) == i,
{
    lemma_first_of(s, b);
    let f = first_of(s, b);
    if f < i {
        assert(s[f] != b);
    }
}

/// The kind of message that a word names.
pub open spec fn type_of(word: Seq<u8>) -> Option<Type> {
    if word == word_signal() {
        Some(Type::Signal)
    } else if word == word_method_call() {
        Some(Type::MethodCall)
    } else if word == word_method_return() {
        Some(Type::MethodReturn)
    } else if word == word_error() {
        Some(Type::Error)
    } else {
        None
    }
}

/// `b` is an ASCII decimal digit.
pub open spec fn is_digit(b: u8) -> bool {
    0x30 <= b <= 0x39
}

/// The index that the digits `d` spell: one digit, or two of which the
/// first is no zero, and no more than 63.
pub open spec fn arg_index(d: Seq<u8>) -> Option<u8> {
    if d.len() == 1 && is_digit(d[0]) {
        Some((d[0] - 0x30) as u8)
    } else if d.len() == 2 && 0x31 <= d[0] <= 0x39 && is_digit(d[1]) && (d[0] - 0x30) * 10 + (d[1]
        - 0x30) <= MAX_ARG {
        Some(((d[0] - 0x30) * 10 + (d[1] - 0x30)) as u8)
    } else {
        None
    }
}

/// What a key that starts with `arg` speaks of: the index of the argument,
/// and whether the argument is compared as a path.
pub open spec fn arg_key(key: Seq<u8>) -> Option<(u8, bool)> {
    if key.len() > 3 && key.take(3) == key_arg() {
        let rest = key.skip(3);
        if rest.len() > 4 && rest.skip(rest.len() - 4) == key_path() {
            match arg_index(rest.take(rest.len() - 4)) {
                Some(n) => Some((n, true)),
                None => None,
            }
        } else {
            match arg_index(rest) {
                Some(n) => Some((n, false)),
                None => None,
            }
        }
    } else {
        None
    }
}

/// The clause with the key `key` and the value `value`, which is the text
/// `text`; `None` where there is no such key or the value is not one that
/// the key takes.
pub open spec fn clause_of(key: Seq<u8>, value: Seq<u8>, text: Seq<char>) -> Option<ClauseView> {
    if key == key_type() {
        match type_of(value) {
            Some(t) => Some(ClauseView::Type(t)),
            None => None,
        }
    } else if key == key_sender() {
        if crate::message::is_bus_name(value) {
            Some(ClauseView::Sender(text))
        } else {
            None
        }
    } else if key == key_interface() {
        if crate::names::interface_name::is_interface_name(value) {
            Some(ClauseView::Interface(text))
        } else {
            None
        }
    } else if key == key_member() {
        if crate::names::member_name::is_member_name(value) {
            Some(ClauseView::Member(text))
        } else {
            None
        }
    } else if key == key_path() {
        if crate::names::object_path::is_object_path(value) {
            Some(ClauseView::Path(text))
        } else {
            None
        }
    } else if key == key_path_namespace() {
        if crate::names::object_path::is_object_path(value) {
            Some(ClauseView::PathNamespace(text))
        } else {
            None
        }
    } else if key == key_destination() {
        if is_unique_name(value) {
            Some(ClauseView::Destination(text))
        } else {
            None
        }
    } else if key == key_eavesdrop() {
        if value == word_true() {
            Some(ClauseView::Eavesdrop(true))
        } else if value == word_false() {
            Some(ClauseView::Eavesdrop(false))
        } else {
            None
        }
    } else if key == key_arg0namespace() {
        if value.len() > 0 {
            Some(ClauseView::Arg0Namespace(text))
        } else {
            None
        }
    } else {
        match arg_key(key) {
            Some((n, false)) => Some(ClauseView::Arg(n, text)),
            Some((n, true)) => Some(ClauseView::ArgPath(n, text)),
            None => None,
        }
    }
}

/// Reads `item` as one clause: a key, an equals sign, and a value between
/// quotes. The value is text and has no quote in it.
pub open spec fn parse_clause(item: Seq<u8>) -> Option<ClauseView> {
    let e = first_of(item, EQUALS);
    if !(0 <= e < item.len()) {
        None
    } else {
        let quoted = item.skip(e + 1);
        if quoted.len() < 2 || quoted[0] != QUOTE || quoted[quoted.len() - 1] != QUOTE {
            None
        } else {
            let value = quoted.subrange(1, quoted.len() - 1);
            if first_of(value, QUOTE) < value.len() || !valid_utf8(value) {
                None
            } else {
                clause_of(item.take(e), value, decode_utf8(value))
            }
        }
    }
}

/// Reads `s` as a rule: one or more clauses with commas between them.
pub open spec fn parse_clauses(s: Seq<u8>) -> Option<Seq<ClauseView>>
    decreases s.len(),
{
    let c = first_of(s, COMMA);
    if !(0 <= c <= s.len()) {
        None
    } else {
        match parse_clause(s.take(c)) {
            None => None,
            Some(clause) => if c >= s.len() {
                Some(seq![clause])
            } else {
                match parse_clauses(s.skip(c + 1)) {
                    Some(rest) => Some(seq![clause] + rest),
                    None => None,
                }
            },
        }
    }
}

/// The position of the first byte `b` between `from` and `to`, and `to`
/// where there is none.
pub fn find_first(bytes: &[u8], from: usize, to: usize, b: u8) -> (r: usize)
    requires
        from <= to <= bytes.len(),
    ensures
        from <= r <= to,
        r - from == first_of(bytes@.subrange(from as int, to as int), b),
{
    let ghost s = bytes@.subrange(from as int, to as int);
    let mut i: usize = from;
    while i < to
        invariant
            from <= i <= to <= bytes.len(),
            s == bytes@.subrange(from as int, to as int),
            forall|k: int| from <= k < i ==> bytes@[k] != b,
        decreases to - i,
    {
        if bytes[i] == b {
            proof {
                assert forall|k: int| 0 <= k < i - from implies s[k] != b by {
                    assert(s[k] == bytes@[from + k]);
                }
                lemma_first_of_is(s, b, i - from);
            }
            return i;
        }
        i += 1;
    }
    proof {
        assert forall|k: int| 0 <= k < to - from implies s[k] != b by {
            assert(s[k] == bytes@[from + k]);
        }
        lemma_first_of_is(s, b, to - from);
    }
    to
}

/// The kind of message that a word names.
fn read_type(word: &[u8]) -> (r: Option<Type>)
    ensures
        r == type_of(word@),
{
    if bytes_eq(word, word_signal_bytes().as_slice()) {
        Some(Type::Signal)
    } else if bytes_eq(word, word_method_call_bytes().as_slice()) {
        Some(Type::MethodCall)
    } else if bytes_eq(word, word_method_return_bytes().as_slice()) {
        Some(Type::MethodReturn)
    } else if bytes_eq(word, word_error_bytes().as_slice()) {
        Some(Type::Error)
    } else {
        None
    }
}

/// The index that the digits spell.
fn read_arg_index(d: &[u8]) -> (r: Option<u8>)
    ensures
        r == arg_index(d@),
{
    if d.len() == 1 && 0x30 <= d[0] && d[0] <= 0x39 {
        Some(d[0] - 0x30)
    } else if d.len() == 2 && 0x31 <= d[0] && d[0] <= 0x39 && 0x30 <= d[1] && d[1] <= 0x39 {
        let n = (d[0] - 0x30) * 10 + (d[1] - 0x30);
        if n <= MAX_ARG {
            Some(n)
        } else {
            None
        }
    } else {
        None
    }
}

/// What a key that starts with `arg` speaks of.
fn read_arg_key(key: &[u8]) -> (r: Option<(u8, bool)>)
    ensures
        r == arg_key(key@),
{
    if key.len() <= 3 {
        return None;
    }
    let head = slice_subrange(key, 0, 3);
    assert(head@ =~= key@.take(3));
    if !bytes_eq(head, key_arg_bytes().as_slice()) {
        return None;
    }
    let rest = slice_subrange(key, 3, key.len());
    assert(rest@ =~= key@.skip(3));
    if rest.len() > 4 {
        let tail = slice_subrange(rest, rest.len() - 4, rest.len());
        assert(tail@ =~= rest@.skip(rest@.len() - 4));
        if bytes_eq(tail, key_path_bytes().as_slice()) {
            let digits = slice_subrange(rest, 0, rest.len() - 4);
            assert(digits@ =~= rest@.take(rest@.len() - 4));
            return match read_arg_index(digits) {
                Some(n) => Some((n, true)),
                None => None,
            };
        }
    }
    match read_arg_index(rest) {
        Some(n) => Some((n, false)),
        None => None,
    }
}

/// The clause with the key `key` and the value `value`.
fn make_clause(key: &[u8], value: &[u8], text: &str) -> (r: Option<Clause>)
    requires
        text@ == decode_utf8(value@),
    ensures
        match clause_of(key@, value@, text@) {
            Some(c) => r matches Some(clause) && clause@ == c,
            None => r is None,
        },
{
    if bytes_eq(key, key_type_bytes().as_slice()) {
        match read_type(value) {
            Some(t) => Some(Clause::Type(t)),
            None => None,
        }
    } else if bytes_eq(key, key_sender_bytes().as_slice()) {
        if crate::names::unique_name::validate_bytes(value).is_ok()
            || crate::names::well_known_name::validate_bytes(value).is_ok() {
            Some(Clause::Sender(text.to_owned()))
        } else {
            None
        }
    } else if bytes_eq(key, key_interface_bytes().as_slice()) {
        if crate::names::interface_name::validate_bytes(value).is_ok() {
            Some(Clause::Interface(text.to_owned()))
        } else {
            None
        }
    } else if bytes_eq(key, key_member_bytes().as_slice()) {
        if crate::names::member_name::validate_bytes(value).is_ok() {
            Some(Clause::Member(text.to_owned()))
        } else {
            None
        }
    } else if bytes_eq(key, key_path_bytes().as_slice()) {
        if crate::names::object_path::validate_bytes(value).is_ok() {
            Some(Clause::Path(text.to_owned()))
        } else {
            None
        }
    } else if bytes_eq(key, key_path_namespace_bytes().as_slice()) {
        if crate::names::object_path::validate_bytes(value).is_ok() {
            Some(Clause::PathNamespace(text.to_owned()))
        } else {
            None
        }
    } else if bytes_eq(key, key_destination_bytes().as_slice()) {
        if crate::names::unique_name::validate_bytes(value).is_ok() {
            Some(Clause::Destination(text.to_owned()))
        } else {
            None
        }
    } else if bytes_eq(key, key_eavesdrop_bytes().as_slice()) {
        if bytes_eq(value, word_true_bytes().as_slice()) {
            Some(Clause::Eavesdrop(true))
        } else if bytes_eq(value, word_false_bytes().as_slice()) {
            Some(Clause::Eavesdrop(false))
        } else {
            None
        }
    } else if bytes_eq(key, key_arg0namespace_bytes().as_slice()) {
        if value.len() > 0 {
            Some(Clause::Arg0Namespace(text.to_owned()))
        } else {
            None
        }
    } else {
        match read_arg_key(key) {
            Some((n, false)) => Some(Clause::Arg(n, text.to_owned())),
            Some((n, true)) => Some(Clause::ArgPath(n, text.to_owned())),
            None => None,
        }
    }
}

/// Reads the bytes from `from` up to `to` as one clause.
fn read_clause(bytes: &[u8], from: usize, to: usize) -> (r: Option<Clause>)
    requires
        from <= to <= bytes.len(),
    ensures
        match parse_clause(bytes@.subrange(from as int, to as int)) {
            Some(c) => r matches Some(clause) && clause@ == c,
            None => r is None,
        },
{
    let ghost item = bytes@.subrange(from as int, to as int);
    let e = find_first(bytes, from, to, EQUALS);
    if e >= to {
        return None;
    }
    let key = slice_subrange(bytes, from, e);
    assert(key@ =~= item.take(e - from));
    let ghost quoted = item.skip(e - from + 1);
    assert(quoted =~= bytes@.subrange(e + 1, to as int));
    if to - (e + 1) < 2 || bytes[e + 1] != QUOTE || bytes[to - 1] != QUOTE {
        assert(quoted.len() >= 2 ==> quoted[0] == bytes@[e + 1] && quoted[quoted.len() - 1]
            == bytes@[to - 1]);
        return None;
    }
    assert(quoted[0] == bytes@[e + 1] && quoted[quoted.len() - 1] == bytes@[to - 1]);
    let value = slice_subrange(bytes, e + 2, to - 1);
    assert(value@ =~= quoted.subrange(1, quoted.len() - 1));
    if find_first(bytes, e + 2, to - 1, QUOTE) < to - 1 {
        return None;
    }
    match from_utf8(value) {
        Ok(text) => make_clause(key, value, text),
        Err(_) => None,
    }
}

/// What is read when `done` was read before and `rest` is read behind it.
pub open spec fn clauses_behind(done: Seq<ClauseView>, rest: Option<Seq<ClauseView>>) -> Option<
    Seq<ClauseView>,
> {
    match rest {
        Some(more) => Some(done + more),
        None => None,
    }
}

impl MatchRule {
    /// Reads the text of a rule: clauses of the form `key='value'` with
    /// commas between them, where every key is one that a rule can have and
    /// every value is one that its key takes.
    pub fn compile(text: &str) -> (r: Result<MatchRule, crate::error::Error>)
        ensures
            match parse_clauses(text.spec_bytes()) {
                Some(clauses) => r matches Ok(rule) && clause_views(rule.clauses@) == clauses,
                None => r matches Err(e) && e == crate::error::Error::InvalidMatchRule,
            },
    {
        let bytes = text.as_bytes();
        let len = bytes.len();
        let ghost whole = parse_clauses(bytes@);
        let mut clauses: Vec<Clause> = Vec::new();
        let mut cur: usize = 0;
        assert(clause_views(clauses@) =~= seq![]);
        assert(bytes@.skip(0) =~= bytes@);
        assert(whole == clauses_behind(clause_views(clauses@), whole)) by {
            if let Some(more) = whole {
                assert(clause_views(clauses@) + more =~= more);
            }
        }
        loop
            invariant
                cur <= len,
                len == bytes.len(),
                bytes@ == text.spec_bytes(),
                whole == parse_clauses(bytes@),
                whole == clauses_behind(
                    clause_views(clauses@),
                    parse_clauses(bytes@.skip(cur as int)),
                ),
            decreases len - cur,
        {
            let ghost s = bytes@.skip(cur as int);
            let ghost done = clause_views(clauses@);
            assert(s =~= bytes@.subrange(cur as int, len as int));
            let comma = find_first(bytes, cur, len, COMMA);
            assert(s.take(comma - cur) =~= bytes@.subrange(cur as int, comma as int));
            let clause = match read_clause(bytes, cur, comma) {
                Some(clause) => clause,
                None => {
                    return Err(crate::error::Error::InvalidMatchRule);
                },
            };
            let ghost v = clause@;
            clauses.push(clause);
            assert(clause_views(clauses@) =~= done + seq![v]);
            if comma >= len {
                return Ok(MatchRule { clauses });
            }
            proof {
                assert(s.skip(comma - cur + 1) =~= bytes@.skip(comma + 1));
                if let Some(more) = parse_clauses(bytes@.skip(comma + 1)) {
                    assert(done + (seq![v] + more) =~= (done + seq![v]) + more);
                }
            }
            cur = comma + 1;
        }
    }
}

/// The decimal digits of an index.
pub open spec fn index_digits(n: u8) -> Seq<u8> {
    if n < 10 {
        seq![(0x30 + n) as u8]
    } else if n < 100 {
        seq![(0x30 + n / 10) as u8, (0x30 + n % 10) as u8]
    } else {
        seq![(0x30 + n / 100) as u8, (0x30 + n / 10 % 10) as u8, (0x30 + n % 10) as u8]
    }
}

/// The word that names a kind of message.
pub open spec fn type_word(t: Type) -> Seq<u8> {
    match t {
        Type::Signal => word_signal(),
        Type::MethodCall => word_method_call(),
        Type::MethodReturn => word_method_return(),
        Type::Error => word_error(),
    }
}

impl ClauseView {
    /// The key of the clause, as bytes.
    pub open spec fn key_bytes(self) -> Seq<u8> {
        match self {
            ClauseView::Type(_) => key_type(),
            ClauseView::Sender(_) => key_sender(),
            ClauseView::Interface(_) => key_interface(),
            ClauseView::Member(_) => key_member(),
            ClauseView::Path(_) => key_path(),
            ClauseView::PathNamespace(_) => key_path_namespace(),
            ClauseView::Destination(_) => key_destination(),
            ClauseView::Eavesdrop(_) => key_eavesdrop(),
            ClauseView::Arg(n, _) => key_arg() + index_digits(n),
            ClauseView::ArgPath(n, _) => key_arg() + index_digits(n) + key_path(),
            ClauseView::Arg0Namespace(_) => key_arg0namespace(),
        }
    }

    /// The value of the clause, as bytes.
    pub open spec fn value_bytes(self) -> Seq<u8> {
        match self {
            ClauseView::Type(t) => type_word(t),
            ClauseView::Eavesdrop(b) => if b {
                word_true()
            } else {
                word_false()
            },
            ClauseView::Sender(s)
            | ClauseView::Interface(s)
            | ClauseView::Member(s)
            | ClauseView::Path(s)
            | ClauseView::PathNamespace(s)
            | ClauseView::Destination(s)
            | ClauseView::Arg(_, s)
            | ClauseView::ArgPath(_, s)
            | ClauseView::Arg0Namespace(s) => encode_utf8(s),
        }
    }

    /// The clause as it stands in the text of a rule: the key, an equals
    /// sign, and the value between quotes.
    pub open spec fn bytes(self) -> Seq<u8> {
        self.key_bytes() + seq![EQUALS, QUOTE] + self.value_bytes() + seq![QUOTE]
    }
}

/// The text of a rule with these clauses: the clauses with commas between
/// them.
pub open spec fn rule_bytes(clauses: Seq<ClauseView>) -> Seq<u8>
    decreases clauses.len(),
{
    if clauses.len() == 0 {
        seq![]
    } else if clauses.len() == 1 {
        clauses[0].bytes()
    } else {
        rule_bytes(clauses.drop_last()) + seq![COMMA] + clauses.last().bytes()
    }
}

/// Appends text to text.
fn append_text(out: &mut Vec<u8>, bytes: &[u8])
    requires
        valid_utf8(old(out)@),
        valid_utf8(bytes@),
    ensures
        final(out)@ == old(out)@ + bytes@,
        valid_utf8(final(out)@),
{
    proof {
        vstd::utf8::valid_utf8_concat(out@, bytes@);
    }
    crate::text::append_bytes(out, bytes);
}

/// Appends ASCII bytes to text.
fn append_ascii(out: &mut Vec<u8>, bytes: &[u8])
    requires
        valid_utf8(old(out)@),
        crate::text::is_ascii_bytes(bytes@),
    ensures
        final(out)@ == old(out)@ + bytes@,
        valid_utf8(final(out)@),
{
    proof {
        crate::text::lemma_ascii_text(bytes@);
    }
    append_text(out, bytes);
}

/// The decimal digits of an index.
fn digits_of(n: u8) -> (r: Vec<u8>)
    ensures
        r@ == index_digits(n),
        crate::text::is_ascii_bytes(r@),
{
    let mut r: Vec<u8> = Vec::new();
    if n < 10 {
        r.push(0x30 + n);
    } else if n < 100 {
        r.push(0x30 + n / 10);
        r.push(0x30 + n % 10);
    } else {
        r.push(0x30 + n / 100);
        r.push(0x30 + n / 10 % 10);
        r.push(0x30 + n % 10);
    }
    assert(r@ =~= index_digits(n));
    r
}

impl Clause {
    /// Appends to `out` the key of the clause.
    fn write_key(&self, out: &mut Vec<u8>)
        requires
            valid_utf8(old(out)@),
        ensures
            final(out)@ == old(out)@ + self@.key_bytes(),
            valid_utf8(final(out)@),
    {
        let ghost before = out@;
        match self {
            Clause::Type(_) => append_ascii(out, key_type_bytes().as_slice()),
            Clause::Sender(_) => append_ascii(out, key_sender_bytes().as_slice()),
            Clause::Interface(_) => append_ascii(out, key_interface_bytes().as_slice()),
            Clause::Member(_) => append_ascii(out, key_member_bytes().as_slice()),
            Clause::Path(_) => append_ascii(out, key_path_bytes().as_slice()),
            Clause::PathNamespace(_) => append_ascii(out, key_path_namespace_bytes().as_slice()),
            Clause::Destination(_) => append_ascii(out, key_destination_bytes().as_slice()),
            Clause::Eavesdrop(_) => append_ascii(out, key_eavesdrop_bytes().as_slice()),
            Clause::Arg0Namespace(_) => append_ascii(out, key_arg0namespace_bytes().as_slice()),
            Clause::Arg(n, _) => {
                append_ascii(out, key_arg_bytes().as_slice());
                append_ascii(out, digits_of(*n).as_slice());
            },
            Clause::ArgPath(n, _) => {
                append_ascii(out, key_arg_bytes().as_slice());
                append_ascii(out, digits_of(*n).as_slice());
                append_ascii(out, key_path_bytes().as_slice());
            },
        }
        assert(out@ =~= before + self@.key_bytes());
    }

    /// Appends to `out` the value of the clause.
    fn write_value(&self, out: &mut Vec<u8>)
        requires
            valid_utf8(old(out)@),
        ensures
            final(out)@ == old(out)@ + self@.value_bytes(),
            valid_utf8(final(out)@),
    {
        match self {
            Clause::Type(t) => match t {
                Type::Signal => append_ascii(out, word_signal_bytes().as_slice()),
                Type::MethodCall => append_ascii(out, word_method_call_bytes().as_slice()),
                Type::MethodReturn => append_ascii(out, word_method_return_bytes().as_slice()),
                Type::Error => append_ascii(out, word_error_bytes().as_slice()),
            },
            Clause::Eavesdrop(b) => if *b {
                append_ascii(out, word_true_bytes().as_slice())
            } else {
                append_ascii(out, word_false_bytes().as_slice())
            },
            Clause::Sender(s)
            | Clause::Interface(s)
            | Clause::Member(s)
            | Clause::Path(s)
            | Clause::PathNamespace(s)
            | Clause::Destination(s)
            | Clause::Arg(_, s)
            | Clause::ArgPath(_, s)
            | Clause::Arg0Namespace(s) => {
                proof {
                    vstd::utf8::encode_utf8_valid_utf8(s@);
                }
                append_text(out, s.as_str().as_bytes())
            },
        }
    }

    /// Appends to `out` the clause as it stands in the text of a rule.
    pub fn write_text(&self, out: &mut Vec<u8>)
        requires
            valid_utf8(old(out)@),
        ensures
            final(out)@ == old(out)@ + self@.bytes(),
            valid_utf8(final(out)@),
    {
        let ghost before = out@;
        self.write_key(out);
        let opening: [u8; 2] = [EQUALS, QUOTE];
        append_ascii(out, opening.as_slice());
        self.write_value(out);
        let closing: [u8; 1] = [QUOTE];
        append_ascii(out, closing.as_slice());
        assert(out@ =~= before + self@.bytes());
    }
}

impl MatchRule {
    /// The text of the rule, as the bus takes it: the clauses in the form
    /// `key='value'`, with commas between them.
    pub fn to_string(&self) -> (r: String)
        ensures
            encode_utf8(r@) == rule_bytes(clause_views(self.clauses@)),
    {
        let ghost all = clause_views(self.clauses@);
        let mut out: Vec<u8> = Vec::new();
        let mut i: usize = 0;
        assert(rule_bytes(all.take(0)) =~= seq![]);
        assert(valid_utf8(out@));
        while i < self.clauses.len()
            invariant
                i <= self.clauses.len(),
                all == clause_views(self.clauses@),
                out@ == rule_bytes(all.take(i as int)),
                valid_utf8(out@),
            decreases self.clauses.len() - i,
        {
            if i > 0 {
                let comma: [u8; 1] = [COMMA];
                append_ascii(&mut out, comma.as_slice());
            }
            let ghost head = out@;
            assert(self.clauses@[i as int]@ == all[i as int]);
            self.clauses[i].write_text(&mut out);
            proof {
                let next = all.take(i + 1);
                assert(next.drop_last() =~= all.take(i as int));
                assert(next.last() == all[i as int]);
                if i == 0 {
                    assert(out@ =~= rule_bytes(next));
                } else {
                    assert(out@ =~= rule_bytes(next));
                }
            }
            i += 1;
        }
        assert(all.take(self.clauses.len() as int) =~= all);
        match from_utf8(out.as_slice()) {
            Ok(text) => {
                proof {
                    vstd::utf8::decode_utf8_encode_utf8(out@);
                }
                text.to_owned()
            },
            Err(_) => String::new(),
        }
    }
}

} // verus!
