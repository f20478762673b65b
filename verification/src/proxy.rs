//! The client's side of an object of another connection: the calls that
//! are made on it, the rule by which its signals are asked for, and the
//! properties that are remembered of it.

use vstd::prelude::*;
use vstd::utf8::encode_utf8;
use crate::error::Error;
use crate::match_rule::{clause_views, Clause, ClauseView, MatchRule};
use crate::message::{is_bus_name, Message, MessageView, Type};
use crate::names::interface_name::{is_interface_name, InterfaceName};
use crate::names::member_name::is_member_name;
use crate::names::object_path::{is_object_path, ObjectPath};
use crate::wire::endian::Endian;
use crate::object_server::{
    index_of, lemma_index_of, lemma_index_of_is, lemma_index_of_none, PROPERTIES,
};
use crate::text::str_eq;
use crate::wire::dbus::{encoded_row, MAX_ENCODED_LEN};
use crate::wire::grammar::MAX_SIGNATURE_LEN;
use crate::wire::signature::{texts, views};
use crate::wire::value::{signatures, value_trees, Value, ValueView};

verus! {

/// An object of another connection, seen through one of its interfaces.
#[derive(Debug, PartialEq, Eq)]
pub struct Proxy {
    /// The name of the connection that has the object.
    pub destination: String,
    /// The path of the object.
    pub path: ObjectPath,
    /// The interface through which the object is seen.
    pub interface: InterfaceName,
}

/// The message `m` is a call of the method `member` of `interface` on the
/// object at `path` of the connection `destination`, with the values `body`.
pub open spec fn is_call(
    m: MessageView,
    destination: Seq<char>,
    path: Seq<char>,
    interface: Seq<char>,
    member: Seq<char>,
    body: Seq<ValueView>,
) -> bool {
    &&& m.is_consistent()
    &&& m.header.msg_type == Type::MethodCall
    &&& m.header.endian == Endian::Little
    &&& m.header.serial == 0
    &&& m.header.destination matches Some(d) && d@ == destination
    &&& m.header.path matches Some(p) && p@ == path
    &&& m.header.interface matches Some(i) && i@ == interface
    &&& m.header.member matches Some(n) && n@ == member
    &&& m.body == encoded_row(m.header.endian, 0, body)
    &&& texts(views(m.header.signature@)) == texts(signatures(body))
}

/// The call can be made: the names are names of their kinds, the values
/// are well typed, and their encoding and their signature are short enough
/// for the wire.
pub open spec fn can_call(
    destination: Seq<char>,
    path: Seq<char>,
    interface: Seq<char>,
    member: Seq<char>,
    body: Seq<ValueView>,
) -> bool {
    &&& is_bus_name(encode_utf8(destination))
    &&& is_object_path(encode_utf8(path))
    &&& is_interface_name(encode_utf8(interface))
    &&& is_member_name(encode_utf8(member))
    &&& forall|i: int| 0 <= i < body.len() ==> (#[trigger] body[i]).is_well_typed()
    &&& encoded_row(Endian::Little, 0, body).len() <= MAX_ENCODED_LEN
    &&& texts(signatures(body)).len() <= MAX_SIGNATURE_LEN
}

/// Makes the call of the method `member` of `interface` on the object at
/// `path` of the connection `destination`, with the values `body`, in
/// little-endian order.
pub fn call_on(destination: &str, path: &ObjectPath, interface: &str, member: &str, body: &Vec<
    Value,
>) -> (r: Result<Message, Error>)
    ensures
        r matches Ok(m) ==> is_call(
            m@,
            destination@,
            path@,
            interface@,
            member@,
            value_trees(body@),
        ),
        r matches Err(e) ==> (e matches Error::InvalidName(_) || e matches Error::Protocol(_)),
        can_call(destination@, path@, interface@, member@, value_trees(body@)) ==> r is Ok,
{
    let builder = match Message::method_call(path.as_str(), member) {
        Ok(b) => b,
        Err(e) => {
            return Err(e);
        },
    };
    let builder = match builder.destination(destination) {
        Ok(b) => b,
        Err(e) => {
            return Err(e);
        },
    };
    let builder = match builder.interface(interface) {
        Ok(b) => b,
        Err(e) => {
            return Err(e);
        },
    };
    builder.endian(Endian::Little).build(body)
}

/// The clauses of the rule for the signal `member` that the object sends
/// through the interface.
pub open spec fn signal_clauses(proxy: Proxy, member: Seq<char>) -> Seq<ClauseView> {
    seq![
        ClauseView::Type(Type::Signal),
        ClauseView::Sender(proxy.destination@),
        ClauseView::Path(proxy.path@),
        ClauseView::Interface(proxy.interface@),
        ClauseView::Member(member),
    ]
}

impl Proxy {
    /// Makes the call of the method `member` with the values `body`.
    pub fn call(&self, member: &str, body: &Vec<Value>) -> (r: Result<Message, Error>)
        ensures
            r matches Ok(m) ==> is_call(
                m@,
                self.destination@,
                self.path@,
                self.interface@,
                member@,
                value_trees(body@),
            ),
            r matches Err(e) ==> (e matches Error::InvalidName(_) || e matches Error::Protocol(_)),
            can_call(
                self.destination@,
                self.path@,
                self.interface@,
                member@,
                value_trees(body@),
            ) ==> r is Ok,
    {
        call_on(self.destination.as_str(), &self.path, self.interface.as_str(), member, body)
    }

    /// Makes the call that asks the object for the property `name`: `Get`
    /// of the interface of the properties, with the interface and the name.
    pub fn get_property(&self, name: &str) -> (r: Result<Message, Error>)
        ensures
            r matches Ok(m) ==> is_call(
                m@,
                self.destination@,
                self.path@,
                PROPERTIES@,
                "Get"@,
                seq![ValueView::Str(self.interface@), ValueView::Str(name@)],
            ),
            r matches Err(e) ==> (e matches Error::InvalidName(_) || e matches Error::Protocol(_)),
            can_call(
                self.destination@,
                self.path@,
                PROPERTIES@,
                "Get"@,
                seq![ValueView::Str(self.interface@), ValueView::Str(name@)],
            ) ==> r is Ok,
    {
        let mut body: Vec<Value> = Vec::new();
        body.push(Value::Str(self.interface.to_string()));
        body.push(Value::Str(name.to_owned()));
        assert(value_trees(body@) =~= seq![
            ValueView::Str(self.interface@),
            ValueView::Str(name@),
        ]);
        call_on(self.destination.as_str(), &self.path, PROPERTIES, "Get", &body)
    }

    /// Makes the call that sets the property `name` to `value`: `Set` of
    /// the interface of the properties, with the interface, the name, and the
    /// value in a variant.
    pub fn set_property(&self, name: &str, value: Value) -> (r: Result<Message, Error>)
        ensures
            r matches Ok(m) ==> is_call(
                m@,
                self.destination@,
                self.path@,
                PROPERTIES@,
                "Set"@,
                seq![
                    ValueView::Str(self.interface@),
                    ValueView::Str(name@),
                    ValueView::Value(Box::new(value@)),
                ],
            ),
            r matches Err(e) ==> (e matches Error::InvalidName(_) || e matches Error::Protocol(_)),
            can_call(
                self.destination@,
                self.path@,
                PROPERTIES@,
                "Set"@,
                seq![
                    ValueView::Str(self.interface@),
                    ValueView::Str(name@),
                    ValueView::Value(Box::new(value@)),
                ],
            ) ==> r is Ok,
    {
        let mut body: Vec<Value> = Vec::new();
        body.push(Value::Str(self.interface.to_string()));
        body.push(Value::Str(name.to_owned()));
        body.push(Value::Value(Box::new(value)));
        assert(value_trees(body@) =~= seq![
            ValueView::Str(self.interface@),
            ValueView::Str(name@),
            ValueView::Value(Box::new(value@)),
        ]);
        call_on(self.destination.as_str(), &self.path, PROPERTIES, "Set", &body)
    }

    /// The rule by which the signal `member` of the object is asked for:
    /// signals from the connection and the object, of the interface, with
    /// that name.
    pub fn signal_rule(&self, member: &str) -> (r: MatchRule)
        ensures
            clause_views(r.clauses@) == signal_clauses(*self, member@),
    {
        let mut clauses: Vec<Clause> = Vec::new();
        clauses.push(Clause::Type(Type::Signal));
        clauses.push(Clause::Sender(self.destination.as_str().to_owned()));
        clauses.push(Clause::Path(self.path.to_string()));
        clauses.push(Clause::Interface(self.interface.to_string()));
        clauses.push(Clause::Member(member.to_owned()));
        assert(clause_views(clauses@) =~= signal_clauses(*self, member@));
        MatchRule { clauses }
    }
}

/// A property that is remembered: its name and its value.
#[derive(Debug, PartialEq, Eq)]
pub struct Cached {
    pub name: String,
    pub value: Value,
}

/// The properties of an object that a proxy remembers, so that it need not
/// ask for them again. What the object tells of its properties goes in; a
/// property that has changed to a value that the object does not tell is
/// forgotten, and asked for when it is wanted next.
#[derive(Debug, PartialEq, Eq)]
pub struct Cache {
    pub entries: Vec<Cached>,
}

/// The names of the properties that are remembered, in their order.
pub open spec fn cached_names(entries: Seq<Cached>) -> Seq<Seq<char>> {
    Seq::new(entries.len(), |i: int| entries[i].name@)
}

/// The value that is remembered of the property `name`, if any.
pub open spec fn remembered(entries: Seq<Cached>, name: Seq<char>) -> Option<ValueView> {
    match index_of(cached_names(entries), name) {
        Some(i) => Some(entries[i].value@),
        None => None,
    }
}

/// The value that the changes `changed` give the property `name`, if they
/// give it one: that of the last among them that names it.
pub open spec fn last_value(changed: Seq<Cached>, name: Seq<char>) -> Option<ValueView>
    decreases changed.len(),
{
    if changed.len() == 0 {
        None
    } else if changed.last().name@ == name {
        Some(changed.last().value@)
    } else {
        last_value(changed.drop_last(), name)
    }
}

/// A name is found in a row with one more name where it was found before,
/// and at the end where it is the new name and was not found before.
pub proof fn lemma_index_of_push(names: Seq<Seq<char>>, last: Seq<char>, wanted: Seq<char>)
    ensures
        index_of(names.push(last), wanted) == match index_of(names, wanted) {
            Some(i) => Some(i),
            None => if wanted == last {
                Some(names.len() as int)
            } else {
                None
            },
        },
{
    let more = names.push(last);
    lemma_index_of(names, wanted);
    match index_of(names, wanted) {
        Some(i) => {
            assert(more[i] == wanted);
            assert forall|k: int| 0 <= k < i implies more[k] != wanted by {
                assert(more[k] == names[k]);
            }
            lemma_index_of_is(more, wanted, i);
        },
        None => {
            if wanted == last {
                assert forall|k: int| 0 <= k < names.len() implies more[k] != wanted by {
                    assert(more[k] == names[k]);
                }
                lemma_index_of_is(more, wanted, names.len() as int);
            } else {
                assert forall|k: int| 0 <= k < more.len() implies more[k] != wanted by {
                    if k < names.len() {
                        assert(more[k] == names[k]);
                    }
                }
                lemma_index_of_none(more, wanted);
            }
        },
    }
}

/// Where a name is taken out of a row, every other name is found where it
/// was, or one place in front of it.
pub proof fn lemma_index_of_remove(names: Seq<Seq<char>>, i: int, wanted: Seq<char>)
    requires
        0 <= i < names.len(),
        names[i] != wanted,
    ensures
        index_of(names.remove(i), wanted) == match index_of(names, wanted) {
            Some(j) => if j < i {
                Some(j)
            } else {
                Some(j - 1)
            },
            None => None,
        },
{
    let less = names.remove(i);
    lemma_index_of(names, wanted);
    match index_of(names, wanted) {
        Some(j) => {
            let at = if j < i {
                j
            } else {
                j - 1
            };
            assert(less[at] == wanted);
            assert forall|k: int| 0 <= k < at implies less[k] != wanted by {
                if k < i {
                    assert(less[k] == names[k]);
                } else {
                    assert(less[k] == names[k + 1]);
                }
            }
            lemma_index_of_is(less, wanted, at);
        },
        None => {
            assert forall|k: int| 0 <= k < less.len() implies less[k] != wanted by {
                if k < i {
                    assert(less[k] == names[k]);
                } else {
                    assert(less[k] == names[k + 1]);
                }
            }
            lemma_index_of_none(less, wanted);
        },
    }
}

impl Cache {
    /// A cache that remembers nothing.
    pub fn new() -> (r: Cache)
        ensures
            r.entries@.len() == 0,
    {
        Cache { entries: Vec::new() }
    }

    /// The place of the property `name`, if it is remembered.
    pub fn find(&self, name: &str) -> (r: Option<usize>)
        ensures
            match index_of(cached_names(self.entries@), name@) {
                Some(i) => r == Some(i as usize) && 0 <= i < self.entries.len(),
                None => r is None,
            },
    {
        let ghost all = cached_names(self.entries@);
        let mut i: usize = 0;
        while i < self.entries.len()
            invariant
                i <= self.entries.len(),
                all == cached_names(self.entries@),
                forall|k: int| 0 <= k < i ==> all[k] != name@,
            decreases self.entries.len() - i,
        {
            assert(all[i as int] == self.entries[i as int].name@);
            if str_eq(self.entries[i].name.as_str(), name) {
                proof {
                    lemma_index_of_is(all, name@, i as int);
                }
                return Some(i);
            }
            i += 1;
        }
        proof {
            lemma_index_of_none(all, name@);
        }
        None
    }

    /// The value that is remembered of the property `name`, if any.
    pub fn get(&self, name: &str) -> (r: Option<Value>)
        ensures
            match remembered(self.entries@, name@) {
                Some(value) => r matches Some(v) && v@ == value,
                None => r is None,
            },
    {
        match self.find(name) {
            Some(i) => Some(self.entries[i].value.duplicate()),
            None => None,
        }
    }

    /// Remembers the value of the property `name`. Of every other
    /// property the cache remembers what it did.
    pub fn store(&mut self, name: &str, value: Value)
        ensures
            remembered(final(self).entries@, name@) == Some(value@),
            forall|other: Seq<char>|
                other != name@ ==> #[trigger] remembered(final(self).entries@, other)
                    == remembered(old(self).entries@, other),
    {
        let ghost before = self.entries@;
        match self.find(name) {
            Some(i) => {
                let was = self.entries.remove(i);
                self.entries.insert(i, Cached { name: was.name, value });
                assert(cached_names(self.entries@) =~= cached_names(before));
                assert(forall|j: int|
                    0 <= j < before.len() && j != i ==> self.entries@[j] == before[j]);
                proof {
                    lemma_index_of(cached_names(before), name@);
                }
                assert forall|other: Seq<char>| other != name@ implies #[trigger] remembered(
                    self.entries@,
                    other,
                ) == remembered(before, other) by {
                    lemma_index_of(cached_names(before), other);
                    if let Some(j) = index_of(cached_names(before), other) {
                        assert(cached_names(before)[j] == other);
                        assert(cached_names(before)[i as int] == name@);
                        assert(j != i);
                    }
                }
            },
            None => {
                self.entries.push(Cached { name: name.to_owned(), value });
                assert(cached_names(self.entries@) =~= cached_names(before).push(name@));
                proof {
                    lemma_index_of_push(cached_names(before), name@, name@);
                }
                assert forall|other: Seq<char>| other != name@ implies #[trigger] remembered(
                    self.entries@,
                    other,
                ) == remembered(before, other) by {
                    lemma_index_of_push(cached_names(before), name@, other);
                    lemma_index_of(cached_names(before), other);
                }
            },
        }
    }

    /// Forgets the property `name`. Of every other property the cache
    /// remembers what it did.
    pub fn forget(&mut self, name: &str)
        ensures
            remembered(final(self).entries@, name@) is None,
            forall|other: Seq<char>|
                other != name@ ==> #[trigger] remembered(final(self).entries@, other)
                    == remembered(old(self).entries@, other),
    {
        loop
            invariant
                forall|other: Seq<char>|
                    other != name@ ==> #[trigger] remembered(self.entries@, other) == remembered(
                        old(self).entries@,
                        other,
                    ),
            ensures
                remembered(self.entries@, name@) is None,
            decreases self.entries.len(),
        {
            let ghost before = self.entries@;
            match self.find(name) {
                Some(i) => {
                    self.entries.remove(i);
                    assert(cached_names(self.entries@) =~= cached_names(before).remove(i as int));
                    assert forall|other: Seq<char>| other != name@ implies #[trigger] remembered(
                        self.entries@,
                        other,
                    ) == remembered(before, other) by {
                        lemma_index_of(cached_names(before), name@);
                        lemma_index_of(cached_names(before), other);
                        lemma_index_of_remove(cached_names(before), i as int, other);
                    }
                },
                None => {
                    break ;
                },
            }
        }
    }

    /// Takes in what the object tells of its properties: those in
    /// `changed` have the values given there, and those named in
    /// `invalidated` have changed to values that are not told. Afterwards
    /// the cache remembers nothing of a property that was invalidated; of one
    /// that has changed, the value that was told last; and of every other
    /// what it remembered before.
    pub fn apply(&mut self, changed: Vec<Cached>, invalidated: &Vec<String>)
        ensures
            forall|name: Seq<char>|
                #[trigger] remembered(final(self).entries@, name) == if exists|k: int|
                    0 <= k < invalidated.len() && invalidated[k]@ == name {
                    None
                } else {
                    match last_value(changed@, name) {
                        Some(value) => Some(value),
                        None => remembered(old(self).entries@, name),
                    }
                },
    {
        let ghost all = changed@;
        let mut changed = changed;
        let n = changed.len();
        let mut i: usize = 0;
        assert(all.take(0) =~= seq![]);
        while i < n
            invariant
                i <= n,
                n == all.len(),
                changed@ == all.skip(i as int),
                forall|name: Seq<char>|
                    #[trigger] remembered(self.entries@, name) == match last_value(
                        all.take(i as int),
                        name,
                    ) {
                        Some(value) => Some(value),
                        None => remembered(old(self).entries@, name),
                    },
            decreases n - i,
        {
            let ghost head = all.take(i + 1);
            assert(head.drop_last() =~= all.take(i as int));
            assert(head.last() == all[i as int]);
            assert(changed@[0] == all[i as int]);
            let next = changed.remove(0);
            assert(changed@ =~= all.skip(i + 1));
            self.store(next.name.as_str(), next.value);
            i += 1;
        }
        assert(all.take(n as int) =~= all);
        let ghost stored = self.entries@;
        let mut k: usize = 0;
        while k < invalidated.len()
            invariant
                k <= invalidated.len(),
                forall|name: Seq<char>|
                    #[trigger] remembered(self.entries@, name) == if exists|j: int|
                        0 <= j < k && invalidated[j]@ == name {
                        None
                    } else {
                        remembered(stored, name)
                    },
            decreases invalidated.len() - k,
        {
            let ghost before = self.entries@;
            self.forget(invalidated[k].as_str());
            assert forall|name: Seq<char>| #[trigger] remembered(self.entries@, name) == if exists|
                j: int,
            |
                0 <= j < k + 1 && invalidated[j]@ == name {
                None
            } else {
                remembered(stored, name)
            } by {
                if name == invalidated[k as int]@ {
                    assert(0 <= k < k + 1 && invalidated[k as int]@ == name);
                } else {
                    assert(remembered(self.entries@, name) == remembered(before, name));
                    if exists|j: int| 0 <= j < k && invalidated[j]@ == name {
                        let j = choose|j: int| 0 <= j < k && invalidated[j]@ == name;
                        assert(0 <= j < k + 1 && invalidated[j]@ == name);
                    }
                }
            }
            k += 1;
        }
    }
}

} // verus!
