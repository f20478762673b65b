use zbus::fdo::error::Error;
use zbus::message::Type;
use zbus::names::object_path::ObjectPath;
use zbus::properties::{
    get_managed_objects, interfaces_added, interfaces_removed, properties_changed, same_type,
    Access, Managed, Property, PropertyTable,
};
use zbus::wire::signature::Signature;
use zbus::wire::value::Value;

fn text(s: &str) -> Value {
    Value::Str(s.to_string())
}

fn variant(v: Value) -> Value {
    Value::Value(Box::new(v))
}

fn entry(name: &str, v: Value) -> Value {
    Value::Structure(vec![text(name), variant(v)])
}

fn path(s: &str) -> ObjectPath {
    ObjectPath::try_from(s).unwrap()
}

fn table() -> PropertyTable {
    PropertyTable {
        interface: "org.example.TestObj".to_string(),
        properties: vec![
            Property { name: "Test".to_string(), value: text("test"), access: Access::ReadWrite },
            Property { name: "Count".to_string(), value: Value::U32(3), access: Access::Read },
            Property { name: "Secret".to_string(), value: text("x"), access: Access::Write },
        ],
    }
}

#[test]
fn get_gives_the_value_in_a_variant() {
    let t = table();
    assert_eq!(t.get("Test"), Ok(variant(text("test"))));
    assert_eq!(t.get("Count"), Ok(variant(Value::U32(3))));
    assert_eq!(t.get("Secret"), Err(Error::AccessDenied("Secret".to_string())));
    assert_eq!(t.get("Nothing"), Err(Error::UnknownProperty("Nothing".to_string())));
    assert_eq!(t.get("test"), Err(Error::UnknownProperty("test".to_string())));
}

#[test]
fn get_all_gives_what_can_be_read() {
    let all = table().get_all();
    assert_eq!(
        all,
        Value::Dict(
            Signature::Str,
            Signature::Variant,
            vec![entry("Test", text("test")), entry("Count", Value::U32(3))]
        )
    );
    let none = PropertyTable { interface: "org.example.None".to_string(), properties: vec![] };
    assert_eq!(none.get_all(), Value::Dict(Signature::Str, Signature::Variant, vec![]));
}

#[test]
fn set_changes_the_one_property() {
    let mut t = table();
    assert_eq!(t.set("Test", text("changed")), Ok(()));
    assert_eq!(t.get("Test"), Ok(variant(text("changed"))));
    assert_eq!(t.get("Count"), Ok(variant(Value::U32(3))));
    assert_eq!(t.properties.len(), 3);
    assert_eq!(t.properties[0].access, Access::ReadWrite);
    // what can only be written is written
    assert_eq!(t.set("Secret", text("y")), Ok(()));
    assert_eq!(t.properties[2].value, text("y"));
}

#[test]
fn set_refuses_and_changes_nothing() {
    let mut t = table();
    assert_eq!(t.set("Count", Value::U32(4)), Err(Error::PropertyReadOnly("Count".to_string())));
    assert_eq!(t.set("Test", Value::U32(4)), Err(Error::InvalidArgs("Test".to_string())));
    assert_eq!(t.set("Nothing", text("x")), Err(Error::UnknownProperty("Nothing".to_string())));
    assert_eq!(t, table());
}

#[test]
fn values_of_one_type_have_one_signature() {
    assert!(same_type(&text("a"), &text("b")));
    assert!(!same_type(&text("a"), &Value::U32(1)));
    assert!(same_type(
        &Value::Array(Signature::Str, vec![]),
        &Value::Array(Signature::Str, vec![text("a")])
    ));
    assert!(!same_type(&Value::Array(Signature::Str, vec![]), &Value::Array(Signature::U8, vec![])));
}

#[test]
fn a_change_is_told_with_the_values_that_can_be_read() {
    let m = properties_changed(&path("/org/example/Obj"), &table(), &vec!["Big".to_string()])
        .unwrap();
    let h = m.header();
    assert_eq!(h.message_type(), Type::Signal);
    assert_eq!(h.path().unwrap().as_str(), "/org/example/Obj");
    assert_eq!(h.interface().unwrap().as_str(), "org.freedesktop.DBus.Properties");
    assert_eq!(h.member().unwrap().as_str(), "PropertiesChanged");
    assert_eq!(h.signature, Signature::from_str("(sa{sv}as)").map(|s| match s {
        Signature::Structure(fields) => fields,
        _ => vec![],
    }).unwrap());
    assert_eq!(
        m.body_values().unwrap(),
        vec![
            text("org.example.TestObj"),
            Value::Dict(
                Signature::Str,
                Signature::Variant,
                vec![entry("Test", text("test")), entry("Count", Value::U32(3))]
            ),
            Value::Array(Signature::Str, vec![text("Big")]),
        ]
    );
}

#[test]
fn interfaces_that_were_added_are_told_with_their_properties() {
    let tables = vec![PropertyTable {
        interface: "org.example.TestObj".to_string(),
        properties: vec![Property {
            name: "Test".to_string(),
            value: text("test"),
            access: Access::Read,
        }],
    }];
    let m = interfaces_added(
        &path("/org/zbus/NoObjectManagerSignalsBeforeHello"),
        &path("/org/zbus/NoObjectManagerSignalsBeforeHello/Obj"),
        &tables,
    )
    .unwrap();
    assert_eq!(m.header().interface().unwrap().as_str(), "org.freedesktop.DBus.ObjectManager");
    assert_eq!(m.header().member().unwrap().as_str(), "InterfacesAdded");
    assert_eq!(m.header().path().unwrap().as_str(), "/org/zbus/NoObjectManagerSignalsBeforeHello");
    // { "org.example.TestObj" -> { "Test" -> variant<string>("test") } }
    let expected = Value::Dict(
        Signature::Str,
        Signature::from_str("a{sv}").unwrap(),
        vec![Value::Structure(vec![
            text("org.example.TestObj"),
            Value::Dict(Signature::Str, Signature::Variant, vec![entry("Test", text("test"))]),
        ])],
    );
    assert_eq!(
        m.body_values().unwrap(),
        vec![
            Value::ObjectPath(path("/org/zbus/NoObjectManagerSignalsBeforeHello/Obj")),
            expected
        ]
    );
}

#[test]
fn interfaces_that_were_removed_are_told_by_their_names() {
    let m = interfaces_removed(
        &path("/org/example"),
        &path("/org/example/Obj"),
        &vec!["org.example.A".to_string(), "org.example.B".to_string()],
    )
    .unwrap();
    assert_eq!(m.header().member().unwrap().as_str(), "InterfacesRemoved");
    assert_eq!(
        m.body_values().unwrap(),
        vec![
            Value::ObjectPath(path("/org/example/Obj")),
            Value::Array(Signature::Str, vec![text("org.example.A"), text("org.example.B")]),
        ]
    );
}

#[test]
fn managed_objects_are_told_path_by_path() {
    let objects = vec![
        Managed { path: path("/org/example/A"), tables: vec![table()] },
        Managed { path: path("/org/example/B"), tables: vec![] },
    ];
    let v = get_managed_objects(&objects);
    let interfaces_type = Signature::from_str("a{sa{sv}}").unwrap();
    match &v {
        Value::Dict(key, value, entries) => {
            assert_eq!(key, &Signature::ObjectPath);
            assert_eq!(value, &interfaces_type);
            assert_eq!(entries.len(), 2);
            assert_eq!(
                entries[1],
                Value::Structure(vec![
                    Value::ObjectPath(path("/org/example/B")),
                    Value::Dict(Signature::Str, Signature::from_str("a{sv}").unwrap(), vec![]),
                ])
            );
        }
        other => panic!("{:?}", other),
    }
    // it travels in both encodings
    for format in [zbus::wire::signature::Format::DBus, zbus::wire::signature::Format::GVariant] {
        let ctx = zbus::wire::context::Context::new(format, zbus::wire::endian::Endian::Little, 0);
        let bytes = zbus::wire::codec::to_bytes(ctx, &v).unwrap();
        let signature = Signature::from_str("a{oa{sa{sv}}}").unwrap();
        assert_eq!(zbus::wire::codec::from_bytes(ctx, &signature, &bytes).unwrap().0, v);
    }
}
