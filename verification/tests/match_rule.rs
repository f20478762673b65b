use zbus::match_rule::{
    arg_paths_match, continues, path_in_namespace, starts_with, Clause, MatchRule,
};
use zbus::message::{Message, Type};
use zbus::names::object_path::ObjectPath;
use zbus::wire::value::Value;

fn signal(body: Vec<Value>) -> Message {
    Message::signal("/org/example/Thing", "org.example.Iface", "Changed")
        .unwrap()
        .sender(":1.5")
        .unwrap()
        .destination(":1.9")
        .unwrap()
        .build(&body)
        .unwrap()
}

fn rule(clauses: Vec<Clause>) -> MatchRule {
    MatchRule { clauses }
}

fn s(text: &str) -> String {
    text.to_string()
}

#[test]
fn the_empty_rule_matches_everything() {
    assert!(rule(vec![]).evaluate(&signal(vec![])));
    let call = Message::method_call("/", "M").unwrap().build(&vec![]).unwrap();
    assert!(rule(vec![]).evaluate(&call));
}

#[test]
fn header_clauses() {
    let m = signal(vec![]);
    let holds = |c: Clause| rule(vec![c]).evaluate(&m);
    assert!(holds(Clause::Type(Type::Signal)));
    assert!(!holds(Clause::Type(Type::MethodCall)));
    assert!(!holds(Clause::Type(Type::Error)));
    assert!(holds(Clause::Sender(s(":1.5"))));
    assert!(!holds(Clause::Sender(s(":1.6"))));
    // who owns a well-known name is for the bus to know
    assert!(holds(Clause::Sender(s("org.example.Service"))));
    assert!(holds(Clause::Interface(s("org.example.Iface"))));
    assert!(!holds(Clause::Interface(s("org.example.Ifac"))));
    assert!(holds(Clause::Member(s("Changed"))));
    assert!(!holds(Clause::Member(s("changed"))));
    assert!(holds(Clause::Path(s("/org/example/Thing"))));
    assert!(!holds(Clause::Path(s("/org/example"))));
    assert!(holds(Clause::Destination(s(":1.9"))));
    assert!(!holds(Clause::Destination(s(":1.5"))));
    assert!(holds(Clause::Eavesdrop(true)));
    assert!(holds(Clause::Eavesdrop(false)));
}

#[test]
fn missing_fields_match_nothing() {
    let call = Message::method_call("/", "M").unwrap().build(&vec![]).unwrap();
    let holds = |c: Clause| rule(vec![c]).evaluate(&call);
    assert!(!holds(Clause::Interface(s("a.b"))));
    assert!(!holds(Clause::Sender(s(":1.5"))));
    assert!(!holds(Clause::Destination(s(":1.5"))));
    assert!(holds(Clause::Path(s("/"))));
}

#[test]
fn path_namespace() {
    let m = signal(vec![]);
    let holds = |ns: &str| rule(vec![Clause::PathNamespace(s(ns))]).evaluate(&m);
    assert!(holds("/org/example/Thing"));
    assert!(holds("/org/example"));
    assert!(holds("/org"));
    assert!(holds("/"));
    assert!(!holds("/org/exam"));
    assert!(!holds("/org/example/Thing/Below"));
    assert!(!holds("/com"));
}

#[test]
fn every_clause_has_to_hold() {
    let m = signal(vec![Value::Str(s("org.example.T"))]);
    let all = rule(vec![
        Clause::Type(Type::Signal),
        Clause::Interface(s("org.example.Iface")),
        Clause::Member(s("Changed")),
        Clause::Arg(0, s("org.example.T")),
    ]);
    assert!(all.evaluate(&m));
    for i in 0..4 {
        let mut clauses = vec![
            Clause::Type(Type::Signal),
            Clause::Interface(s("org.example.Iface")),
            Clause::Member(s("Changed")),
            Clause::Arg(0, s("org.example.T")),
        ];
        clauses[i] = match i {
            0 => Clause::Type(Type::Error),
            1 => Clause::Interface(s("org.example.Other")),
            2 => Clause::Member(s("Other")),
            _ => Clause::Arg(0, s("org.example.U")),
        };
        assert!(!rule(clauses).evaluate(&m), "clause {}", i);
    }
    // the rule says the same as its clauses, one by one
    for c in all.clauses.iter() {
        assert!(c.evaluate(m.header(), &m.body_values().unwrap()));
    }
}

#[test]
fn argument_clauses() {
    let m = signal(vec![
        Value::Str(s("org.example.T")),
        Value::U32(7),
        Value::ObjectPath(ObjectPath::try_from("/aa/bb").unwrap()),
        Value::Str(s("/aa/")),
    ]);
    let holds = |c: Clause| rule(vec![c]).evaluate(&m);
    assert!(holds(Clause::Arg(0, s("org.example.T"))));
    assert!(!holds(Clause::Arg(0, s("org.example"))));
    // only strings are compared
    assert!(!holds(Clause::Arg(1, s("7"))));
    assert!(!holds(Clause::Arg(2, s("/aa/bb"))));
    // there is no such argument
    assert!(!holds(Clause::Arg(4, s(""))));
    assert!(!holds(Clause::Arg(63, s("x"))));

    assert!(holds(Clause::ArgPath(2, s("/aa/bb"))));
    assert!(holds(Clause::ArgPath(2, s("/aa/"))));
    assert!(holds(Clause::ArgPath(2, s("/"))));
    assert!(!holds(Clause::ArgPath(2, s("/aa"))));
    assert!(!holds(Clause::ArgPath(2, s("/aa/b"))));
    assert!(holds(Clause::ArgPath(3, s("/aa/bb/cc"))));
    assert!(holds(Clause::ArgPath(3, s("/aa/"))));
    assert!(!holds(Clause::ArgPath(3, s("/aa"))));
    assert!(!holds(Clause::ArgPath(1, s("7"))));

    assert!(holds(Clause::Arg0Namespace(s("org.example.T"))));
    assert!(holds(Clause::Arg0Namespace(s("org.example"))));
    assert!(holds(Clause::Arg0Namespace(s("org"))));
    assert!(!holds(Clause::Arg0Namespace(s("org.exam"))));
    assert!(!holds(Clause::Arg0Namespace(s("org.example.T.U"))));
}

#[test]
fn a_body_that_cannot_be_read_has_no_arguments() {
    let m = signal(vec![]);
    assert!(!rule(vec![Clause::Arg(0, s(""))]).evaluate(&m));
    assert!(!rule(vec![Clause::Arg0Namespace(s("a"))]).evaluate(&m));
}

#[test]
fn byte_helpers() {
    assert!(starts_with(b"abc", b""));
    assert!(starts_with(b"abc", b"ab"));
    assert!(starts_with(b"abc", b"abc"));
    assert!(!starts_with(b"abc", b"abcd"));
    assert!(!starts_with(b"abc", b"b"));
    assert!(continues(b"a/b", b"a", b'/'));
    assert!(!continues(b"a", b"a", b'/'));
    assert!(!continues(b"ab/", b"a", b'/'));
    assert!(path_in_namespace(b"/a/b", b"/a"));
    assert!(path_in_namespace(b"/a", b"/a"));
    assert!(path_in_namespace(b"/a", b"/"));
    assert!(!path_in_namespace(b"/ab", b"/a"));
    assert!(arg_paths_match(b"/a/", b"/a/b"));
    assert!(arg_paths_match(b"/a/b", b"/a/"));
    assert!(arg_paths_match(b"/a", b"/a"));
    assert!(!arg_paths_match(b"/a", b"/a/b"));
}

#[test]
fn compile_reads_every_key() {
    let r = MatchRule::compile(
        "type='signal',sender='org.freedesktop.DBus',interface='org.freedesktop.DBus',member='NameOwnerChanged',path='/org/freedesktop/DBus',destination=':1.7',eavesdrop='true',arg0='org.example.T',arg2path='/aa/',arg0namespace='org.example'",
    )
    .unwrap();
    assert_eq!(
        r.clauses,
        vec![
            Clause::Type(Type::Signal),
            Clause::Sender(s("org.freedesktop.DBus")),
            Clause::Interface(s("org.freedesktop.DBus")),
            Clause::Member(s("NameOwnerChanged")),
            Clause::Path(s("/org/freedesktop/DBus")),
            Clause::Destination(s(":1.7")),
            Clause::Eavesdrop(true),
            Clause::Arg(0, s("org.example.T")),
            Clause::ArgPath(2, s("/aa/")),
            Clause::Arg0Namespace(s("org.example")),
        ]
    );
    assert_eq!(
        MatchRule::compile("path_namespace='/org'").unwrap().clauses,
        vec![Clause::PathNamespace(s("/org"))]
    );
    for (word, kind) in [
        ("signal", Type::Signal),
        ("method_call", Type::MethodCall),
        ("method_return", Type::MethodReturn),
        ("error", Type::Error),
    ] {
        assert_eq!(
            MatchRule::compile(&format!("type='{}'", word)).unwrap().clauses,
            vec![Clause::Type(kind)]
        );
    }
    assert_eq!(
        MatchRule::compile("eavesdrop='false'").unwrap().clauses,
        vec![Clause::Eavesdrop(false)]
    );
}

#[test]
fn compile_reads_argument_indices() {
    for n in 0u8..=63 {
        assert_eq!(
            MatchRule::compile(&format!("arg{}='x'", n)).unwrap().clauses,
            vec![Clause::Arg(n, s("x"))]
        );
        assert_eq!(
            MatchRule::compile(&format!("arg{}path='/x'", n)).unwrap().clauses,
            vec![Clause::ArgPath(n, s("/x"))]
        );
    }
    for bad in ["arg64='x'", "arg100='x'", "arg='x'", "arg00='x'", "arg01='x'", "arg-1='x'",
        "arg+1='x'", "arg1x='x'", "arg64path='x'", "argpath='x'", "arg1namespace='x'", "arg 1='x'"]
    {
        assert!(MatchRule::compile(bad).is_err(), "{}", bad);
    }
    // the value of an argument is any text
    assert_eq!(
        MatchRule::compile("arg3='gr\u{fc}\u{df}e = a b'").unwrap().clauses,
        vec![Clause::Arg(3, s("gr\u{fc}\u{df}e = a b"))]
    );
    assert_eq!(MatchRule::compile("arg0=''").unwrap().clauses, vec![Clause::Arg(0, s(""))]);
}

#[test]
fn compile_refuses_what_is_no_rule() {
    for bad in [
        "",
        ",",
        "type",
        "type=",
        "type=signal",
        "type='signal",
        "type=signal'",
        "type='signal',",
        ",type='signal'",
        "type='signal',,member='M'",
        "type='nothing'",
        "type='Signal'",
        "Type='signal'",
        "kind='signal'",
        "='signal'",
        "sender='not a name'",
        "interface='nodots'",
        "member='with.dot'",
        "path='no/slash'",
        "path_namespace='/trailing/'",
        "destination='org.example.WellKnown'",
        "eavesdrop='yes'",
        "arg0namespace=''",
        "arg0='it's'",
        "arg0='a','b'",
        "member='M' ",
        " member='M'",
        "member = 'M'",
        "member=\"M\"",
    ] {
        assert_eq!(MatchRule::compile(bad), Err(zbus::error::Error::InvalidMatchRule), "{:?}", bad);
    }
}

#[test]
fn a_comma_ends_the_clause() {
    // values cannot hold a comma: the clause ends there
    assert!(MatchRule::compile("arg0='a,b'").is_err());
    assert_eq!(
        MatchRule::compile("arg0='a',arg1='b'").unwrap().clauses,
        vec![Clause::Arg(0, s("a")), Clause::Arg(1, s("b"))]
    );
}

#[test]
fn display_writes_what_compile_reads() {
    for text in [
        "type='signal'",
        "type='method_call',member='Ping'",
        "type='signal',sender='org.freedesktop.DBus',interface='org.freedesktop.DBus',member='NameOwnerChanged',path='/org/freedesktop/DBus',arg0='org.example.T'",
        "path_namespace='/',arg63path='/a/',arg0namespace='a.b',eavesdrop='false',destination=':1.1'",
        "arg10='gr\u{fc}\u{df}e'",
    ] {
        let rule = MatchRule::compile(text).unwrap();
        assert_eq!(rule.to_string(), text);
        assert_eq!(MatchRule::compile(&rule.to_string()).unwrap(), rule);
    }
    assert_eq!(rule(vec![]).to_string(), "");
    assert_eq!(rule(vec![Clause::Arg(200, s("x"))]).to_string(), "arg200='x'");
    assert_eq!(rule(vec![Clause::ArgPath(7, s("/"))]).to_string(), "arg7path='/'");
}

#[test]
fn a_compiled_rule_filters() {
    let rule = MatchRule::compile(
        "type='signal',interface='org.example.Iface',member='Changed',arg0='org.example.T'",
    )
    .unwrap();
    assert!(rule.evaluate(&signal(vec![Value::Str(s("org.example.T"))])));
    assert!(!rule.evaluate(&signal(vec![Value::Str(s("org.example.U"))])));
    assert!(!rule.evaluate(&signal(vec![])));
}
