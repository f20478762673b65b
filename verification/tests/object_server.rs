use zbus::object_server::{Dispatch, Interface, ObjectServer, Standard};

fn interface(name: &str, methods: &[&str]) -> Interface {
    Interface { name: name.to_string(), methods: methods.iter().map(|m| m.to_string()).collect() }
}

fn server() -> ObjectServer {
    let mut server = ObjectServer::new();
    server.at("/registered", interface("org.zbus.TestObj", &["Frob", "Quux"]));
    server.at("/registered", interface("org.zbus.Other", &["Quux", "Zap"]));
    server
}

#[test]
fn peer_on_arbitrary_path() {
    // Create a service with only a registered path at /registered
    let mut service = ObjectServer::new();
    service.at("/registered", interface("org.zbus.TestObj", &[]));

    // Ping on an unregistered path should succeed
    let result =
        service.dispatch("/this/path/does/not/exist", Some("org.freedesktop.DBus.Peer"), "Ping");
    assert!(
        matches!(result, Dispatch::Builtin { standard: Standard::Ping, object: None }),
        "Ping on unregistered path should succeed"
    );

    // GetMachineId on an unregistered path should succeed
    let result = service.dispatch(
        "/another/unregistered/path",
        Some("org.freedesktop.DBus.Peer"),
        "GetMachineId",
    );
    match result {
        Dispatch::Builtin { standard: Standard::GetMachineId, .. } => {}
        Dispatch::UnknownObject => panic!("GetMachineId failed unexpectedly: {:?}", result),
        other => panic!("GetMachineId failed unexpectedly: {:?}", other),
    }

    // Ping on registered path should still work
    let result = service.dispatch("/registered", Some("org.freedesktop.DBus.Peer"), "Ping");
    assert!(
        matches!(result, Dispatch::Builtin { standard: Standard::Ping, object: Some(0) }),
        "Ping on registered path should succeed"
    );

    // Unknown method on Peer interface should fail properly
    let result =
        service.dispatch("/unregistered", Some("org.freedesktop.DBus.Peer"), "UnknownMethod");
    assert!(matches!(result, Dispatch::UnknownMethod), "Unknown method should fail");
}

#[test]
fn calls_find_registered_methods() {
    let s = server();
    assert_eq!(
        s.dispatch("/registered", Some("org.zbus.TestObj"), "Quux"),
        Dispatch::Method { node: 0, interface: 0, method: 1 }
    );
    assert_eq!(
        s.dispatch("/registered", Some("org.zbus.Other"), "Quux"),
        Dispatch::Method { node: 0, interface: 1, method: 0 }
    );
    // without an interface, the first one that has the method
    assert_eq!(
        s.dispatch("/registered", None, "Quux"),
        Dispatch::Method { node: 0, interface: 0, method: 1 }
    );
    assert_eq!(
        s.dispatch("/registered", None, "Zap"),
        Dispatch::Method { node: 0, interface: 1, method: 1 }
    );
}

#[test]
fn unknown_object_interface_and_method() {
    let s = server();
    assert_eq!(s.dispatch("/nowhere", Some("org.zbus.TestObj"), "Frob"), Dispatch::UnknownObject);
    assert_eq!(s.dispatch("/nowhere", None, "Frob"), Dispatch::UnknownObject);
    assert_eq!(s.dispatch("/nowhere", None, "Ping"), Dispatch::UnknownObject);
    assert_eq!(
        s.dispatch("/nowhere", Some("org.freedesktop.DBus.Introspectable"), "Introspect"),
        Dispatch::UnknownObject
    );
    assert_eq!(s.dispatch("/registered", Some("org.zbus.Nope"), "Frob"), Dispatch::UnknownInterface);
    assert_eq!(s.dispatch("/registered", Some("org.zbus.TestObj"), "Zap"), Dispatch::UnknownMethod);
    assert_eq!(s.dispatch("/registered", None, "Nope"), Dispatch::UnknownMethod);
    // paths are compared as a whole
    assert_eq!(s.dispatch("/registered/below", Some("org.zbus.TestObj"), "Frob"), Dispatch::UnknownObject);
    assert_eq!(s.dispatch("/", Some("org.zbus.TestObj"), "Frob"), Dispatch::UnknownObject);
}

#[test]
fn standard_interfaces_on_registered_objects() {
    let s = server();
    let cases = [
        ("org.freedesktop.DBus.Introspectable", "Introspect", Standard::Introspect),
        ("org.freedesktop.DBus.Properties", "Get", Standard::PropertiesGet),
        ("org.freedesktop.DBus.Properties", "Set", Standard::PropertiesSet),
        ("org.freedesktop.DBus.Properties", "GetAll", Standard::PropertiesGetAll),
        ("org.freedesktop.DBus.Peer", "GetMachineId", Standard::GetMachineId),
    ];
    for (iface, member, expected) in cases {
        assert_eq!(
            s.dispatch("/registered", Some(iface), member),
            Dispatch::Builtin { standard: expected, object: Some(0) }
        );
    }
    assert_eq!(
        s.dispatch("/registered", Some("org.freedesktop.DBus.Properties"), "Nope"),
        Dispatch::UnknownMethod
    );
    assert_eq!(
        s.dispatch("/registered", Some("org.freedesktop.DBus.Introspectable"), "Ping"),
        Dispatch::UnknownMethod
    );
}

#[test]
fn object_manager_only_where_attached() {
    let mut s = server();
    assert_eq!(
        s.dispatch("/registered", Some("org.freedesktop.DBus.ObjectManager"), "GetManagedObjects"),
        Dispatch::UnknownInterface
    );
    s.nodes[0].object_manager = true;
    assert_eq!(
        s.dispatch("/registered", Some("org.freedesktop.DBus.ObjectManager"), "GetManagedObjects"),
        Dispatch::Builtin { standard: Standard::GetManagedObjects, object: Some(0) }
    );
    assert_eq!(
        s.dispatch("/registered", Some("org.freedesktop.DBus.ObjectManager"), "Other"),
        Dispatch::UnknownMethod
    );
}

#[test]
fn a_registered_interface_comes_before_the_standard_one() {
    let mut s = ObjectServer::new();
    s.at("/x", interface("org.freedesktop.DBus.Peer", &["Ping"]));
    assert_eq!(
        s.dispatch("/x", Some("org.freedesktop.DBus.Peer"), "Ping"),
        Dispatch::Method { node: 0, interface: 0, method: 0 }
    );
    assert_eq!(
        s.dispatch("/x", Some("org.freedesktop.DBus.Peer"), "GetMachineId"),
        Dispatch::UnknownMethod
    );
}

#[test]
fn registering_adds_each_interface_once() {
    let mut s = ObjectServer::new();
    assert_eq!(s.at("/a", interface("a.b", &["M"])), (true, None));
    assert_eq!(s.at("/a", interface("a.b", &["N"])), (false, None));
    assert_eq!(s.at("/a", interface("a.c", &[])), (true, None));
    assert_eq!(s.at("/b", interface("a.b", &[])), (true, None));
    assert_eq!(s.nodes.len(), 2);
    assert_eq!(s.nodes[0].path, "/a");
    assert_eq!(s.nodes[0].interfaces, vec![interface("a.b", &["M"]), interface("a.c", &[])]);
    assert_eq!(s.nodes[1].interfaces, vec![interface("a.b", &[])]);
}

#[test]
fn manager_above_announces_what_is_added_below() {
    let mut s = ObjectServer::new();
    s.at("/org/zbus/Manager", interface("a.b", &[]));
    s.nodes[0].object_manager = true;
    assert_eq!(s.manager_of("/org/zbus/Manager/Obj"), Some(0));
    assert_eq!(s.manager_of("/org/zbus/Manager/Obj/Deeper"), Some(0));
    // not the manager itself, nor a neighbour with a longer name
    assert_eq!(s.manager_of("/org/zbus/Manager"), None);
    assert_eq!(s.manager_of("/org/zbus/ManagerX"), None);
    assert_eq!(s.manager_of("/org/zbus"), None);
    assert_eq!(s.at("/org/zbus/Manager/Obj", interface("org.zbus.TestObj", &[])), (true, Some(0)));
    assert_eq!(s.at("/elsewhere", interface("org.zbus.TestObj", &[])), (true, None));
}

#[test]
fn a_manager_at_the_root_is_above_everything() {
    let mut s = ObjectServer::new();
    s.at("/", interface("a.b", &[]));
    s.nodes[0].object_manager = true;
    assert_eq!(s.manager_of("/anything"), Some(0));
    assert_eq!(s.manager_of("/"), None);
}
