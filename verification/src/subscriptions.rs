//! The subscribers of a connection: who wants which signals, and which
//! rules the bus has to know of.
//!
//! The bus forwards a signal to a connection when one of the rules that the
//! connection registered matches it. Subscribers with the same rule share
//! one registration: the rule is registered for the first of them and
//! released with the last.

use vstd::prelude::*;
use crate::error::Error;
use vstd::utf8::encode_utf8;
use crate::match_rule::{args_of, clause_views, rule_bytes, MatchRule};
use crate::message::{Header, Message, MessageView};
use crate::text::str_eq;
use crate::wire::value::{value_trees, Value, ValueView};

verus! {

/// One subscriber: the number it is known by, its rule, and the text of the
/// rule as the bus knows it.
pub struct Subscription {
    pub id: u64,
    pub rule: MatchRule,
    pub text: String,
}

/// The subscribers of a connection, in the order in which they came.
pub struct Subscriptions {
    entries: Vec<Subscription>,
    next_id: u64,
}

/// What the bus has to be told when a subscriber comes or goes.
#[derive(Debug, PartialEq, Eq)]
pub enum BusRequest {
    /// Nothing: another subscriber has the same rule.
    Nothing,
    /// `AddMatch` with this text: the rule is new to the bus.
    AddMatch(String),
    /// `RemoveMatch` with this text: nobody is left who has the rule.
    RemoveMatch(String),
}

/// The number of subscribers in `entries` whose rule has the text `text`.
pub open spec fn count(entries: Seq<Subscription>, text: Seq<char>) -> nat
    decreases entries.len(),
{
    if entries.len() == 0 {
        0
    } else {
        count(entries.drop_last(), text) + if entries.last().text@ == text {
            1nat
        } else {
            0nat
        }
    }
}

/// The numbers of the subscribers in `entries` whose rule matches a message
/// with the header `h` and the arguments `args`, in the order of the entries.
pub open spec fn matching(entries: Seq<Subscription>, h: &Header, args: Seq<ValueView>) -> Seq<u64>
    decreases entries.len(),
{
    if entries.len() == 0 {
        seq![]
    } else if entries.last().rule.matches(h, args) {
        matching(entries.drop_last(), h, args).push(entries.last().id)
    } else {
        matching(entries.drop_last(), h, args)
    }
}

/// The position of the subscriber with the number `id` in `entries`.
pub open spec fn position_of(entries: Seq<Subscription>, id: u64) -> Option<int> {
    if exists|i: int| 0 <= i < entries.len() && #[trigger] entries[i].id == id {
        Some(choose|i: int| 0 <= i < entries.len() && #[trigger] entries[i].id == id)
    } else {
        None
    }
}

/// Every subscriber has a number of its own, below the next one to be given.
pub open spec fn is_numbered(entries: Seq<Subscription>, next_id: u64) -> bool {
    &&& forall|i: int| 0 <= i < entries.len() ==> (#[trigger] entries[i]).id < next_id
    &&& forall|i: int, j: int|
        0 <= i < entries.len() && 0 <= j < entries.len() && i != j ==> (#[trigger] entries[i]).id
            != (#[trigger] entries[j]).id
}

/// Taking the subscriber at `i` away leaves one fewer with its rule, and
/// as many as before with every other rule.
pub proof fn lemma_count_remove(entries: Seq<Subscription>, i: int, text: Seq<char>)
    requires
        0 <= i < entries.len(),
    ensures
        count(entries, text) == count(entries.remove(i), text) + if entries[i].text@ == text {
            1nat
        } else {
            0nat
        },
    decreases entries.len(),
{
    let rest = entries.remove(i);
    if i == entries.len() - 1 {
        assert(rest =~= entries.drop_last());
    } else {
        lemma_count_remove(entries.drop_last(), i, text);
        assert(rest.drop_last() =~= entries.drop_last().remove(i));
        assert(rest.last() == entries.last());
    }
}

/// One more subscriber makes one more with its rule, and as many as before
/// with every other rule.
pub proof fn lemma_count_push(entries: Seq<Subscription>, entry: Subscription, text: Seq<char>)
    ensures
        count(entries.push(entry), text) == count(entries, text) + if entry.text@ == text {
            1nat
        } else {
            0nat
        },
{
    assert(entries.push(entry).drop_last() =~= entries);
}

impl Subscriptions {
    #[verifier::type_invariant]
    closed spec fn numbered(&self) -> bool {
        is_numbered(self.entries@, self.next_id)
    }

    /// The subscribers, in the order in which they came.
    pub closed spec fn entries(&self) -> Seq<Subscription> {
        self.entries@
    }

    /// The number that the next subscriber gets.
    pub closed spec fn next_id(&self) -> u64 {
        self.next_id
    }

    /// No subscribers.
    pub fn new() -> (s: Subscriptions)
        ensures
            s.entries().len() == 0,
            s.next_id() == 0,
    {
        Subscriptions { entries: Vec::new(), next_id: 0 }
    }

    /// The number of subscribers.
    pub fn len(&self) -> (r: usize)
        ensures
            r == self.entries().len(),
    {
        self.entries.len()
    }

    /// The number of subscribers whose rule has this text.
    pub fn count(&self, text: &str) -> (r: usize)
        ensures
            r == count(self.entries(), text@),
    {
        let mut n: usize = 0;
        let mut i: usize = 0;
        assert(self.entries@.take(0) =~= seq![]);
        while i < self.entries.len()
            invariant
                i <= self.entries.len(),
                n <= i,
                n == count(self.entries@.take(i as int), text@),
            decreases self.entries.len() - i,
        {
            proof {
                let next = self.entries@.take(i + 1);
                assert(next.drop_last() =~= self.entries@.take(i as int));
                assert(next.last() == self.entries@[i as int]);
            }
            if str_eq(self.entries[i].text.as_str(), text) {
                n += 1;
            }
            i += 1;
        }
        assert(self.entries@.take(self.entries.len() as int) =~= self.entries@);
        n
    }

    /// Takes a subscriber with the given rule. Gives the number that the
    /// subscriber is known by from now on, and what the bus has to be told:
    /// to add the rule, by the text that the rule is written as, where no
    /// other subscriber has it, and nothing otherwise. A subscriber is taken
    /// as long as a number is left for it.
    pub fn subscribe(self, rule: MatchRule) -> (r: Result<(Subscriptions, u64, BusRequest), Error>)
        ensures
            self.next_id() < u64::MAX ==> r is Ok,
            match r {
                Ok((s, id, request)) => {
                    &&& id == self.next_id()
                    &&& s.next_id() == id + 1
                    &&& s.entries().len() == self.entries().len() + 1
                    &&& s.entries().drop_last() == self.entries()
                    &&& s.entries().last().id == id
                    &&& s.entries().last().rule == rule
                    &&& encode_utf8(s.entries().last().text@) == rule_bytes(
                        clause_views(rule.clauses@),
                    )
                    &&& position_of(self.entries(), id) is None
                    &&& if count(self.entries(), s.entries().last().text@) == 0 {
                        request matches BusRequest::AddMatch(text) && text@
                            == s.entries().last().text@
                    } else {
                        request is Nothing
                    }
                },
                Err(e) => self.next_id() == u64::MAX && e matches Error::Failure(_),
            },
    {
        proof {
            use_type_invariant(&self);
        }
        if self.next_id == u64::MAX {
            return Err(Error::Failure("no number is left for a subscriber".to_owned()));
        }
        let text = rule.to_string();
        let known = self.count(text.as_str()) > 0;
        let request = if known {
            BusRequest::Nothing
        } else {
            BusRequest::AddMatch(text.clone())
        };
        let id = self.next_id;
        let Subscriptions { entries, next_id } = self;
        let ghost before = entries@;
        let mut entries = entries;
        entries.push(Subscription { id, rule, text });
        assert(entries@.drop_last() =~= before);
        proof {
            if position_of(before, id) is Some {
                let i = choose|i: int| 0 <= i < before.len() && #[trigger] before[i].id == id;
                assert(before[i].id < id);
            }
            assert forall|i: int, j: int|
                0 <= i < entries@.len() && 0 <= j < entries@.len() && i != j implies (
            #[trigger] entries@[i]).id != (#[trigger] entries@[j]).id by {
                if i < before.len() {
                    assert(entries@[i] == before[i]);
                }
                if j < before.len() {
                    assert(entries@[j] == before[j]);
                }
            }
        }
        Ok((Subscriptions { entries, next_id: id + 1 }, id, request))
    }

    /// Lets the subscriber with the number `id` go. Gives what the bus has
    /// to be told: to remove the rule where no other subscriber has it, and
    /// nothing otherwise. A number that nobody has changes nothing.
    pub fn unsubscribe(self, id: u64) -> (r: (Subscriptions, Option<BusRequest>))
        ensures
            r.0.next_id() == self.next_id(),
            match position_of(self.entries(), id) {
                Some(i) => {
                    &&& r.0.entries() == self.entries().remove(i)
                    &&& position_of(r.0.entries(), id) is None
                    &&& r.1 matches Some(request)
                    &&& if count(r.0.entries(), self.entries()[i].text@) == 0 {
                        request matches BusRequest::RemoveMatch(text) && text@
                            == self.entries()[i].text@
                    } else {
                        request is Nothing
                    }
                },
                None => r.0.entries() == self.entries() && r.1 is None,
            },
    {
        proof {
            use_type_invariant(&self);
        }
        let Subscriptions { entries, next_id } = self;
        let mut entries = entries;
        let ghost before = entries@;
        let mut i: usize = 0;
        while i < entries.len() && entries[i].id != id
            invariant
                i <= entries.len(),
                entries@ == before,
                forall|k: int| 0 <= k < i ==> (#[trigger] before[k]).id != id,
            decreases entries.len() - i,
        {
            i += 1;
        }
        if i == entries.len() {
            return (Subscriptions { entries, next_id }, None);
        }
        proof {
            let c = choose|c: int| 0 <= c < before.len() && #[trigger] before[c].id == id;
            assert(before[i as int].id == id);
            if c != i {
                assert(before[c].id != before[i as int].id);
            }
        }
        let gone = entries.remove(i);
        proof {
            let rest = entries@;
            assert forall|a: int| 0 <= a < rest.len() implies (#[trigger] rest[a]).id < next_id
                && rest[a].id != id by {
                let a0 = if a < i { a } else { a + 1 };
                assert(rest[a] == before[a0]);
                assert(before[a0].id != before[i as int].id);
            }
            assert forall|a: int, b: int|
                0 <= a < rest.len() && 0 <= b < rest.len() && a != b implies (#[trigger] rest[a]).id
                != (#[trigger] rest[b]).id by {
                let a0 = if a < i { a } else { a + 1 };
                let b0 = if b < i { b } else { b + 1 };
                assert(rest[a] == before[a0] && rest[b] == before[b0]);
            }
        }
        let rest = Subscriptions { entries, next_id };
        let request = if rest.count(gone.text.as_str()) == 0 {
            BusRequest::RemoveMatch(gone.text)
        } else {
            BusRequest::Nothing
        };
        (rest, Some(request))
    }

    /// The numbers of the subscribers that a signal is for: those whose
    /// rule matches the message, in the order in which they subscribed.
    pub fn route(&self, m: &Message) -> (r: Vec<u64>)
        ensures
            r@ == matching(self.entries(), &m@.header, args_of(m@)),
    {
        let args = match m.body_values() {
            Ok(values) => values,
            Err(_) => Vec::new(),
        };
        assert(value_trees(args@) =~= args_of(m@));
        let header = m.header();
        let mut ids: Vec<u64> = Vec::new();
        let mut i: usize = 0;
        assert(self.entries@.take(0) =~= seq![]);
        while i < self.entries.len()
            invariant
                i <= self.entries.len(),
                *header == m@.header,
                value_trees(args@) == args_of(m@),
                ids@ == matching(self.entries@.take(i as int), header, args_of(m@)),
            decreases self.entries.len() - i,
        {
            proof {
                let next = self.entries@.take(i + 1);
                assert(next.drop_last() =~= self.entries@.take(i as int));
                assert(next.last() == self.entries@[i as int]);
            }
            if self.entries[i].rule.evaluate_parts(header, &args) {
                ids.push(self.entries[i].id);
            }
            i += 1;
        }
        assert(self.entries@.take(self.entries.len() as int) =~= self.entries@);
        ids
    }
}

/// The bus knows a rule from its first subscriber to its last: subscribing
/// asks for the rule to be added exactly when nobody had it, unsubscribing
/// asks for it to be removed exactly when nobody has it any more, and the
/// number of subscribers with a rule goes up and down by one.
pub proof fn lemma_rules_are_shared(entries: Seq<Subscription>, entry: Subscription, i: int)
    requires
        0 <= i < entries.len(),
    ensures
        count(entries.push(entry), entry.text@) == count(entries, entry.text@) + 1,
        count(entries, entries[i].text@) == count(entries.remove(i), entries[i].text@) + 1,
        count(entries, entries[i].text@) >= 1,
{
    lemma_count_push(entries, entry, entry.text@);
    lemma_count_remove(entries, i, entries[i].text@);
}

} // verus!
