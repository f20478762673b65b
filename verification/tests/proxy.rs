use zbus::match_rule::MatchRule;
use zbus::message::{Message, Type};
use zbus::names::interface_name::InterfaceName;
use zbus::names::object_path::ObjectPath;
use zbus::object_server::{Interface, ObjectServer};
use zbus::proxy::{Cache, Cached, Proxy};
use zbus::wire::value::Value;

fn text(s: &str) -> Value {
    Value::Str(s.to_string())
}

fn proxy() -> Proxy {
    Proxy {
        destination: "org.example.Service".to_string(),
        path: ObjectPath::try_from("/org/example/Obj").unwrap(),
        interface: InterfaceName::try_from("org.example.Iface").unwrap(),
    }
}

fn cached(name: &str, value: Value) -> Cached {
    Cached { name: name.to_string(), value }
}

#[test]
fn a_call_through_a_proxy_goes_to_its_object() {
    let m = proxy().call("Greet", &vec![text("you"), Value::U32(2)]).unwrap();
    let h = m.header();
    assert_eq!(h.message_type(), Type::MethodCall);
    assert_eq!(h.destination(), Some("org.example.Service"));
    assert_eq!(h.path().unwrap().as_str(), "/org/example/Obj");
    assert_eq!(h.interface().unwrap().as_str(), "org.example.Iface");
    assert_eq!(h.member().unwrap().as_str(), "Greet");
    assert_eq!(m.body_values().unwrap(), vec![text("you"), Value::U32(2)]);
    assert!(proxy().call("no.member", &vec![]).is_err());
}

#[test]
fn properties_are_asked_for_through_their_interface() {
    let m = proxy().get_property("Count").unwrap();
    assert_eq!(m.header().interface().unwrap().as_str(), "org.freedesktop.DBus.Properties");
    assert_eq!(m.header().member().unwrap().as_str(), "Get");
    assert_eq!(m.body_values().unwrap(), vec![text("org.example.Iface"), text("Count")]);
    let m = proxy().set_property("Count", Value::U32(4)).unwrap();
    assert_eq!(m.header().member().unwrap().as_str(), "Set");
    assert_eq!(
        m.body_values().unwrap(),
        vec![text("org.example.Iface"), text("Count"), Value::Value(Box::new(Value::U32(4)))]
    );
}

#[test]
fn the_rule_of_a_proxy_matches_the_signals_of_its_object() {
    let rule = proxy().signal_rule("Changed");
    assert_eq!(
        rule.to_string(),
        "type='signal',sender='org.example.Service',path='/org/example/Obj',\
         interface='org.example.Iface',member='Changed'"
    );
    assert_eq!(MatchRule::compile(&rule.to_string()).unwrap(), rule);
    let signal = |path: &str, member: &str| -> Message {
        Message::signal(path, "org.example.Iface", member)
            .unwrap()
            .sender(":1.5")
            .unwrap()
            .build(&vec![])
            .unwrap()
    };
    // the sender of the rule is a name that the bus resolves; here the clauses about
    // the object decide
    let about_the_object = MatchRule::compile(
        "type='signal',path='/org/example/Obj',interface='org.example.Iface',member='Changed'",
    )
    .unwrap();
    assert!(about_the_object.evaluate(&signal("/org/example/Obj", "Changed")));
    assert!(!about_the_object.evaluate(&signal("/org/example/Other", "Changed")));
    assert!(!about_the_object.evaluate(&signal("/org/example/Obj", "Other")));
}

#[test]
fn a_cache_remembers_what_it_is_told() {
    let mut cache = Cache::new();
    assert_eq!(cache.get("Count"), None);
    cache.store("Count", Value::U32(1));
    cache.store("Name", text("one"));
    assert_eq!(cache.get("Count"), Some(Value::U32(1)));
    assert_eq!(cache.get("Name"), Some(text("one")));
    cache.store("Count", Value::U32(2));
    assert_eq!(cache.get("Count"), Some(Value::U32(2)));
    assert_eq!(cache.get("Name"), Some(text("one")));
    assert_eq!(cache.entries.len(), 2);
    cache.forget("Count");
    assert_eq!(cache.get("Count"), None);
    assert_eq!(cache.get("Name"), Some(text("one")));
    cache.forget("Nothing");
    assert_eq!(cache.entries.len(), 1);
}

#[test]
fn a_change_that_is_not_told_makes_the_cache_forget() {
    let mut cache = Cache::new();
    cache.store("Count", Value::U32(1));
    cache.store("Name", text("one"));
    cache.store("Big", text("blob"));
    cache.apply(
        vec![
            cached("Count", Value::U32(2)),
            cached("New", Value::Bool(true)),
            cached("Count", Value::U32(3)),
            cached("Gone", Value::U8(1)),
        ],
        &vec!["Big".to_string(), "Gone".to_string(), "Never".to_string()],
    );
    assert_eq!(cache.get("Count"), Some(Value::U32(3)));
    assert_eq!(cache.get("New"), Some(Value::Bool(true)));
    assert_eq!(cache.get("Name"), Some(text("one")));
    assert_eq!(cache.get("Big"), None);
    assert_eq!(cache.get("Gone"), None);
    assert_eq!(cache.get("Never"), None);
}

#[test]
fn an_interface_that_is_taken_away_is_gone() {
    let mut server = ObjectServer::new();
    let iface = |name: &str| Interface { name: name.to_string(), methods: vec!["Do".to_string()] };
    assert_eq!(server.at("/org/example/Obj", iface("org.example.A")), (true, None));
    assert_eq!(server.at("/org/example/Obj", iface("org.example.B")), (true, None));
    assert_eq!(server.remove("/org/example/Obj", "org.example.A"), (true, None));
    assert_eq!(server.remove("/org/example/Obj", "org.example.A"), (false, None));
    assert_eq!(server.remove("/org/example/Other", "org.example.B"), (false, None));
    assert_eq!(server.nodes.len(), 1);
    assert_eq!(server.nodes[0].interfaces, vec![iface("org.example.B")]);
}
