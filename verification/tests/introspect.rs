use zbus::introspect::{
    introspect, Arg, Direction, InterfaceInfo, Member, NodeInfo, PropertyInfo, DOCTYPE,
};
use zbus::properties::Access;

fn arg(name: &str, signature: &str, direction: Direction) -> Arg {
    Arg { name: name.to_string(), signature: signature.to_string(), direction }
}

fn xml(node: &NodeInfo) -> String {
    String::from_utf8(introspect(node)).unwrap()
}

#[test]
fn an_object_with_nothing_is_an_empty_node() {
    let node = NodeInfo { interfaces: vec![], children: vec![] };
    assert_eq!(xml(&node), format!("{DOCTYPE}<node>\n</node>\n"));
    assert!(DOCTYPE.starts_with("<!DOCTYPE node PUBLIC"));
    assert!(DOCTYPE.ends_with(">\n"));
}

#[test]
fn an_interface_is_described_with_all_it_has() {
    let node = NodeInfo {
        interfaces: vec![InterfaceInfo {
            name: "org.example.TestObj".to_string(),
            methods: vec![
                Member { name: "Quit".to_string(), args: vec![] },
                Member {
                    name: "Greet".to_string(),
                    args: vec![
                        arg("name", "s", Direction::In),
                        arg("times", "u", Direction::In),
                        arg("", "as", Direction::Out),
                    ],
                },
            ],
            signals: vec![Member {
                name: "Greeted".to_string(),
                args: vec![arg("who", "s", Direction::Out)],
            }],
            properties: vec![
                PropertyInfo {
                    name: "Test".to_string(),
                    signature: "s".to_string(),
                    access: Access::ReadWrite,
                },
                PropertyInfo {
                    name: "Count".to_string(),
                    signature: "u".to_string(),
                    access: Access::Read,
                },
                PropertyInfo {
                    name: "Secret".to_string(),
                    signature: "a{sv}".to_string(),
                    access: Access::Write,
                },
            ],
        }],
        children: vec!["Child".to_string(), "Other".to_string()],
    };
    let expected = [
        "<node>\n",
        "  <interface name=\"org.example.TestObj\">\n",
        "    <method name=\"Quit\"/>\n",
        "    <method name=\"Greet\">\n",
        "      <arg name=\"name\" type=\"s\" direction=\"in\"/>\n",
        "      <arg name=\"times\" type=\"u\" direction=\"in\"/>\n",
        "      <arg type=\"as\" direction=\"out\"/>\n",
        "    </method>\n",
        "    <signal name=\"Greeted\">\n",
        "      <arg name=\"who\" type=\"s\"/>\n",
        "    </signal>\n",
        "    <property name=\"Test\" type=\"s\" access=\"readwrite\"/>\n",
        "    <property name=\"Count\" type=\"u\" access=\"read\"/>\n",
        "    <property name=\"Secret\" type=\"a{sv}\" access=\"write\"/>\n",
        "  </interface>\n",
        "  <node name=\"Child\"/>\n",
        "  <node name=\"Other\"/>\n",
        "</node>\n",
    ]
    .concat();
    assert_eq!(xml(&node), format!("{DOCTYPE}{expected}"));
}

#[test]
fn what_would_end_an_attribute_is_written_as_an_entity() {
    let node = NodeInfo {
        interfaces: vec![],
        children: vec!["a<b>&\"c'".to_string(), "häuser".to_string()],
    };
    let expected = [
        "<node>\n",
        "  <node name=\"a&lt;b&gt;&amp;&quot;c&apos;\"/>\n",
        "  <node name=\"häuser\"/>\n",
        "</node>\n",
    ]
    .concat();
    assert_eq!(xml(&node), format!("{DOCTYPE}{expected}"));
}
