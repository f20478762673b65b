use zbus::match_rule::MatchRule;
use zbus::message::Message;
use zbus::subscriptions::{BusRequest, Subscriptions};
use zbus::wire::value::Value;

fn rule(text: &str) -> MatchRule {
    MatchRule::compile(text).unwrap()
}

fn name_owner_changed(name: &str, old: &str, new: &str) -> Message {
    Message::signal("/org/freedesktop/DBus", "org.freedesktop.DBus", "NameOwnerChanged")
        .unwrap()
        .sender("org.freedesktop.DBus")
        .unwrap()
        .build(&vec![
            Value::Str(name.to_string()),
            Value::Str(old.to_string()),
            Value::Str(new.to_string()),
        ])
        .unwrap()
}

#[test]
fn the_same_rule_is_registered_once() {
    let text = "type='signal',member='NameOwnerChanged'";
    let s = Subscriptions::new();
    let (s, a, request) = s.subscribe(rule(text)).unwrap();
    assert_eq!(request, BusRequest::AddMatch(text.to_string()));
    let (s, b, request) = s.subscribe(rule(text)).unwrap();
    assert_eq!(request, BusRequest::Nothing);
    let (s, c, request) = s.subscribe(rule("type='signal',member='Other'")).unwrap();
    assert_eq!(request, BusRequest::AddMatch("type='signal',member='Other'".to_string()));
    assert!(a != b && b != c && a != c);
    assert_eq!(s.len(), 3);
    assert_eq!(s.count(text), 2);

    // released with the last one that has it
    let (s, request) = s.unsubscribe(a);
    assert_eq!(request, Some(BusRequest::Nothing));
    let (s, request) = s.unsubscribe(a);
    assert_eq!(request, None);
    let (s, request) = s.unsubscribe(b);
    assert_eq!(request, Some(BusRequest::RemoveMatch(text.to_string())));
    assert_eq!(s.len(), 1);
    let (s, request) = s.unsubscribe(c);
    assert_eq!(
        request,
        Some(BusRequest::RemoveMatch("type='signal',member='Other'".to_string()))
    );
    assert_eq!(s.len(), 0);
    // and registered anew for the next
    let (_, _, request) = s.subscribe(rule(text)).unwrap();
    assert_eq!(request, BusRequest::AddMatch(text.to_string()));
}

#[test]
fn a_signal_goes_to_every_subscriber_whose_rule_matches() {
    let s = Subscriptions::new();
    let (s, by_arg, _) = s
        .subscribe(rule(
            "type='signal',interface='org.freedesktop.DBus',member='NameOwnerChanged',arg0='org.example.T'",
        ))
        .unwrap();
    let (s, all_changes, _) =
        s.subscribe(rule("type='signal',member='NameOwnerChanged'")).unwrap();
    let (s, other_name, _) = s.subscribe(rule("arg0='org.example.U'")).unwrap();
    let (s, again, _) = s
        .subscribe(rule(
            "type='signal',interface='org.freedesktop.DBus',member='NameOwnerChanged',arg0='org.example.T'",
        ))
        .unwrap();

    let signal = name_owner_changed("org.example.T", "", ":1.42");
    assert_eq!(s.route(&signal), vec![by_arg, all_changes, again]);
    let signal = name_owner_changed("org.example.U", "", ":1.42");
    assert_eq!(s.route(&signal), vec![all_changes, other_name]);
    let call = Message::method_call("/", "NameOwnerChanged").unwrap().build(&vec![]).unwrap();
    assert!(s.route(&call).is_empty());

    let (s, _) = s.unsubscribe(all_changes);
    let signal = name_owner_changed("org.example.T", "", ":1.42");
    assert_eq!(s.route(&signal), vec![by_arg, again]);
    assert_eq!(signal.body_values().unwrap()[2], Value::Str(":1.42".to_string()));
}
