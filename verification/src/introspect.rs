//! The description of an object that `Introspect` of the interface
//! `org.freedesktop.DBus.Introspectable` returns: its interfaces with their
//! methods, signals and properties, and the objects below it, as XML.

use vstd::prelude::*;
use vstd::utf8::encode_utf8;
use crate::properties::Access;
use crate::text::append_bytes;

verus! {

/// The way an argument of a method goes.
#[derive(Clone, Copy, Debug, PartialEq, Eq, Structural)]
pub enum Direction {
    /// From the caller to the method.
    In,
    /// From the method back to the caller.
    Out,
}

/// An argument of a method or a signal: its name, which may be empty, and
/// its signature.
#[derive(Debug, PartialEq, Eq)]
pub struct Arg {
    pub name: String,
    pub signature: String,
    pub direction: Direction,
}

/// A method or a signal: its name and its arguments. The arguments of a
/// signal have no direction to tell.
#[derive(Debug, PartialEq, Eq)]
pub struct Member {
    pub name: String,
    pub args: Vec<Arg>,
}

/// A property: its name, its signature, and who may do what with it.
#[derive(Debug, PartialEq, Eq)]
pub struct PropertyInfo {
    pub name: String,
    pub signature: String,
    pub access: Access,
}

/// An interface of an object.
#[derive(Debug, PartialEq, Eq)]
pub struct InterfaceInfo {
    pub name: String,
    pub methods: Vec<Member>,
    pub signals: Vec<Member>,
    pub properties: Vec<PropertyInfo>,
}

/// An object: its interfaces, and the names of the objects right below
/// it.
#[derive(Debug, PartialEq, Eq)]
pub struct NodeInfo {
    pub interfaces: Vec<InterfaceInfo>,
    pub children: Vec<String>,
}

/// The first lines of every description.
pub const DOCTYPE: &'static str =
    "<!DOCTYPE node PUBLIC \"-//freedesktop//DTD D-BUS Object Introspection 1.0//EN\"\n \"http://www.freedesktop.org/standards/dbus/1.0/introspect.dtd\">\n";

/// The bytes of a piece of text.
pub open spec fn lit(text: &str) -> Seq<u8> {
    encode_utf8(text@)
}

/// The bytes that stand for the byte `b` between the quotes of an
/// attribute: `&`, `<`, `>`, `"` and `'` are written as the entities that
/// stand for them.
pub open spec fn escaped_byte(b: u8) -> Seq<u8> {
    if b == 0x26 {
        lit("&amp;")
    } else if b == 0x3c {
        lit("&lt;")
    } else if b == 0x3e {
        lit("&gt;")
    } else if b == 0x22 {
        lit("&quot;")
    } else if b == 0x27 {
        lit("&apos;")
    } else {
        seq![b]
    }
}

/// The bytes of `text` as they stand between the quotes of an attribute.
pub open spec fn escaped(text: Seq<u8>) -> Seq<u8>
    decreases text.len(),
{
    if text.len() == 0 {
        seq![]
    } else {
        escaped(text.drop_last()) + escaped_byte(text.last())
    }
}

/// An attribute: a space, the name, and the value between quotes.
pub open spec fn attribute(name: &str, value: Seq<char>) -> Seq<u8> {
    lit(" ") + lit(name) + lit("=\"") + escaped(encode_utf8(value)) + lit("\"")
}

/// The word for a direction.
pub open spec fn direction_word(d: Direction) -> Seq<char> {
    match d {
        Direction::In => "in"@,
        Direction::Out => "out"@,
    }
}

/// The word for who may do what with a property.
pub open spec fn access_word(a: Access) -> Seq<char> {
    match a {
        Access::Read => "read"@,
        Access::Write => "write"@,
        Access::ReadWrite => "readwrite"@,
    }
}

/// The line of an argument. Its name is told where it has one, and its
/// direction where it is the argument of a method.
pub open spec fn arg_xml(arg: Arg, of_method: bool) -> Seq<u8> {
    lit("      <arg") + (if arg.name@.len() > 0 {
        attribute("name", arg.name@)
    } else {
        seq![]
    }) + attribute("type", arg.signature@) + (if of_method {
        attribute("direction", direction_word(arg.direction))
    } else {
        seq![]
    }) + lit("/>\n")
}

/// The lines of the arguments `args`.
pub open spec fn args_xml(args: Seq<Arg>, of_method: bool) -> Seq<u8>
    decreases args.len(),
{
    if args.len() == 0 {
        seq![]
    } else {
        args_xml(args.drop_last(), of_method) + arg_xml(args.last(), of_method)
    }
}

/// The word for a method or a signal.
pub open spec fn member_word(of_method: bool) -> &'static str {
    if of_method {
        "method"
    } else {
        "signal"
    }
}

/// The lines of a method or a signal: one line where it has no arguments,
/// else its arguments between the lines that open and close it.
pub open spec fn member_xml(member: Member, of_method: bool) -> Seq<u8> {
    lit("    <") + lit(member_word(of_method)) + attribute("name", member.name@) + (
    if member.args@.len() == 0 {
        lit("/>\n")
    } else {
        lit(">\n") + args_xml(member.args@, of_method) + lit("    </") + lit(
            member_word(of_method),
        ) + lit(">\n")
    })
}

/// The lines of the methods or signals `members`.
pub open spec fn members_xml(members: Seq<Member>, of_method: bool) -> Seq<u8>
    decreases members.len(),
{
    if members.len() == 0 {
        seq![]
    } else {
        members_xml(members.drop_last(), of_method) + member_xml(members.last(), of_method)
    }
}

/// The line of a property.
pub open spec fn property_xml(property: PropertyInfo) -> Seq<u8> {
    lit("    <property") + attribute("name", property.name@) + attribute(
        "type",
        property.signature@,
    ) + attribute("access", access_word(property.access)) + lit("/>\n")
}

/// The lines of the properties `properties`.
pub open spec fn properties_xml(properties: Seq<PropertyInfo>) -> Seq<u8>
    decreases properties.len(),
{
    if properties.len() == 0 {
        seq![]
    } else {
        properties_xml(properties.drop_last()) + property_xml(properties.last())
    }
}

/// The lines of an interface: its methods, its signals and its
/// properties, between the lines that open and close it.
pub open spec fn interface_xml(interface: InterfaceInfo) -> Seq<u8> {
    lit("  <interface") + attribute("name", interface.name@) + lit(">\n") + members_xml(
        interface.methods@,
        true,
    ) + members_xml(interface.signals@, false) + properties_xml(interface.properties@) + lit(
        "  </interface>\n",
    )
}

/// The lines of the interfaces `interfaces`.
pub open spec fn interfaces_xml(interfaces: Seq<InterfaceInfo>) -> Seq<u8>
    decreases interfaces.len(),
{
    if interfaces.len() == 0 {
        seq![]
    } else {
        interfaces_xml(interfaces.drop_last()) + interface_xml(interfaces.last())
    }
}

/// The lines of the objects below an object, one for each name.
pub open spec fn children_xml(children: Seq<String>) -> Seq<u8>
    decreases children.len(),
{
    if children.len() == 0 {
        seq![]
    } else {
        children_xml(children.drop_last()) + (lit("  <node") + attribute(
            "name",
            children.last()@,
        ) + lit("/>\n"))
    }
}

/// The description of an object: the first lines, then its interfaces and
/// the objects below it between the lines that open and close it.
pub open spec fn node_xml(node: NodeInfo) -> Seq<u8> {
    lit(DOCTYPE) + lit("<node>\n") + interfaces_xml(node.interfaces@) + children_xml(
        node.children@,
    ) + lit("</node>\n")
}

/// Appends a piece of text.
fn write(out: &mut Vec<u8>, text: &str)
    ensures
        final(out)@ == old(out)@ + lit(text),
{
    append_bytes(out, text.as_bytes());
}

/// Appends text as it stands between the quotes of an attribute.
#[verifier::rlimit(60)]
#[verifier::spinoff_prover]
fn write_escaped(out: &mut Vec<u8>, text: &[u8])
    ensures
        final(out)@ == old(out)@ + escaped(text@),
{
    let ghost all = text@;
    let mut i: usize = 0;
    assert(all.take(0) =~= seq![]);
    assert(out@ =~= old(out)@ + escaped(all.take(0)));
    while i < text.len()
        invariant
            i <= text.len(),
            all == text@,
            out@ == old(out)@ + escaped(all.take(i as int)),
        decreases text.len() - i,
    {
        let ghost before = out@;
        let ghost next = all.take(i + 1);
        assert(next.drop_last() =~= all.take(i as int));
        assert(next.last() == text[i as int]);
        let b = text[i];
        if b == 0x26 {
            write(out, "&amp;");
        } else if b == 0x3c {
            write(out, "&lt;");
        } else if b == 0x3e {
            write(out, "&gt;");
        } else if b == 0x22 {
            write(out, "&quot;");
        } else if b == 0x27 {
            write(out, "&apos;");
        } else {
            out.push(b);
        }
        assert(out@ =~= before + escaped_byte(b));
        assert(out@ =~= old(out)@ + escaped(next));
        i += 1;
    }
    assert(all.take(text.len() as int) =~= all);
}

/// Appends an attribute.
#[verifier::rlimit(60)]
#[verifier::spinoff_prover]
fn write_attribute(out: &mut Vec<u8>, name: &str, value: &str)
    ensures
        final(out)@ == old(out)@ + attribute(name, value@),
{
    write(out, " ");
    write(out, name);
    write(out, "=\"");
    write_escaped(out, value.as_bytes());
    write(out, "\"");
    assert(out@ =~= old(out)@ + attribute(name, value@));
}

/// Appends the line of an argument.
#[verifier::rlimit(60)]
#[verifier::spinoff_prover]
fn write_arg(out: &mut Vec<u8>, arg: &Arg, of_method: bool)
    ensures
        final(out)@ == old(out)@ + arg_xml(*arg, of_method),
{
    write(out, "      <arg");
    let ghost s1 = out@;
    if arg.name.as_str().as_bytes().len() > 0 {
        write_attribute(out, "name", arg.name.as_str());
    }
    let ghost s2 = out@;
    proof {
        lemma_empty_text(arg.name@);
        assert(s2 =~= s1 + (if arg.name@.len() > 0 {
            attribute("name", arg.name@)
        } else {
            Seq::<u8>::empty()
        }));
    }
    write_attribute(out, "type", arg.signature.as_str());
    let ghost s3 = out@;
    if of_method {
        match arg.direction {
            Direction::In => write_attribute(out, "direction", "in"),
            Direction::Out => write_attribute(out, "direction", "out"),
        }
    }
    let ghost s4 = out@;
    assert(s4 =~= s3 + (if of_method {
        attribute("direction", direction_word(arg.direction))
    } else {
        Seq::<u8>::empty()
    }));
    write(out, "/>\n");
    assert(out@ =~= old(out)@ + arg_xml(*arg, of_method));
}

/// Appends the lines of some arguments.
#[verifier::rlimit(60)]
#[verifier::spinoff_prover]
fn write_args(out: &mut Vec<u8>, args: &Vec<Arg>, of_method: bool)
    ensures
        final(out)@ == old(out)@ + args_xml(args@, of_method),
{
    let ghost all = args@;
    let mut i: usize = 0;
    assert(all.take(0) =~= seq![]);
    assert(out@ =~= old(out)@ + args_xml(all.take(0), of_method));
    while i < args.len()
        invariant
            i <= args.len(),
            all == args@,
            out@ == old(out)@ + args_xml(all.take(i as int), of_method),
        decreases args.len() - i,
    {
        let ghost next = all.take(i + 1);
        assert(next.drop_last() =~= all.take(i as int));
        assert(next.last() == all[i as int]);
        write_arg(out, &args[i], of_method);
        assert(out@ =~= old(out)@ + args_xml(next, of_method));
        i += 1;
    }
    assert(all.take(args.len() as int) =~= all);
}

/// Appends the lines of a method or a signal.
#[verifier::rlimit(60)]
#[verifier::spinoff_prover]
fn write_member(out: &mut Vec<u8>, member: &Member, of_method: bool)
    ensures
        final(out)@ == old(out)@ + member_xml(*member, of_method),
{
    let word = if of_method {
        "method"
    } else {
        "signal"
    };
    write(out, "    <");
    write(out, word);
    write_attribute(out, "name", member.name.as_str());
    let ghost head = out@;
    assert(head =~= old(out)@ + (lit("    <") + lit(member_word(of_method)) + attribute(
        "name",
        member.name@,
    )));
    if member.args.len() == 0 {
        write(out, "/>\n");
        assert(out@ =~= old(out)@ + member_xml(*member, of_method));
        return ;
    }
    write(out, ">\n");
    write_args(out, &member.args, of_method);
    write(out, "    </");
    write(out, word);
    write(out, ">\n");
    assert(out@ =~= head + (lit(">\n") + args_xml(member.args@, of_method) + lit("    </") + lit(
        member_word(of_method),
    ) + lit(">\n")));
    assert(out@ =~= old(out)@ + member_xml(*member, of_method));
}

/// Text is empty exactly if it has no bytes.
pub proof fn lemma_empty_text(text: Seq<char>)
    ensures
        (text.len() == 0) == (encode_utf8(text).len() == 0),
{
    vstd::utf8::encode_utf8_decode_utf8(text);
    if text.len() == 0 {
        assert(text =~= Seq::<char>::empty());
        assert(encode_utf8(text).len() == 0);
    } else if encode_utf8(text).len() == 0 {
        assert(encode_utf8(text) =~= encode_utf8(Seq::<char>::empty()));
        vstd::utf8::encode_utf8_decode_utf8(Seq::<char>::empty());
    }
}

/// Appends the lines of some methods or signals.
#[verifier::rlimit(60)]
#[verifier::spinoff_prover]
fn write_members(out: &mut Vec<u8>, members: &Vec<Member>, of_method: bool)
    ensures
        final(out)@ == old(out)@ + members_xml(members@, of_method),
{
    let ghost all = members@;
    let mut i: usize = 0;
    assert(all.take(0) =~= seq![]);
    assert(out@ =~= old(out)@ + members_xml(all.take(0), of_method));
    while i < members.len()
        invariant
            i <= members.len(),
            all == members@,
            out@ == old(out)@ + members_xml(all.take(i as int), of_method),
        decreases members.len() - i,
    {
        let ghost next = all.take(i + 1);
        assert(next.drop_last() =~= all.take(i as int));
        assert(next.last() == all[i as int]);
        write_member(out, &members[i], of_method);
        assert(out@ =~= old(out)@ + members_xml(next, of_method));
        i += 1;
    }
    assert(all.take(members.len() as int) =~= all);
}

/// Appends the line of a property.
#[verifier::rlimit(60)]
#[verifier::spinoff_prover]
fn write_property(out: &mut Vec<u8>, property: &PropertyInfo)
    ensures
        final(out)@ == old(out)@ + property_xml(*property),
{
    write(out, "    <property");
    write_attribute(out, "name", property.name.as_str());
    write_attribute(out, "type", property.signature.as_str());
    let ghost s3 = out@;
    match property.access {
        Access::Read => write_attribute(out, "access", "read"),
        Access::Write => write_attribute(out, "access", "write"),
        Access::ReadWrite => write_attribute(out, "access", "readwrite"),
    }
    assert(out@ =~= s3 + attribute("access", access_word(property.access)));
    write(out, "/>\n");
    assert(out@ =~= old(out)@ + property_xml(*property));
}

/// Appends the lines of some properties.
#[verifier::rlimit(60)]
#[verifier::spinoff_prover]
fn write_properties(out: &mut Vec<u8>, properties: &Vec<PropertyInfo>)
    ensures
        final(out)@ == old(out)@ + properties_xml(properties@),
{
    let ghost all = properties@;
    let mut i: usize = 0;
    assert(all.take(0) =~= seq![]);
    assert(out@ =~= old(out)@ + properties_xml(all.take(0)));
    while i < properties.len()
        invariant
            i <= properties.len(),
            all == properties@,
            out@ == old(out)@ + properties_xml(all.take(i as int)),
        decreases properties.len() - i,
    {
        let ghost next = all.take(i + 1);
        assert(next.drop_last() =~= all.take(i as int));
        assert(next.last() == all[i as int]);
        write_property(out, &properties[i]);
        assert(out@ =~= old(out)@ + properties_xml(next));
        i += 1;
    }
    assert(all.take(properties.len() as int) =~= all);
}

/// Appends the lines of an interface.
#[verifier::rlimit(60)]
#[verifier::spinoff_prover]
fn write_interface(out: &mut Vec<u8>, interface: &InterfaceInfo)
    ensures
        final(out)@ == old(out)@ + interface_xml(*interface),
{
    write(out, "  <interface");
    write_attribute(out, "name", interface.name.as_str());
    write(out, ">\n");
    let ghost s1 = out@;
    assert(s1 =~= old(out)@ + (lit("  <interface") + attribute("name", interface.name@) + lit(
        ">\n",
    )));
    write_members(out, &interface.methods, true);
    write_members(out, &interface.signals, false);
    write_properties(out, &interface.properties);
    write(out, "  </interface>\n");
    assert(out@ =~= s1 + (members_xml(interface.methods@, true) + members_xml(
        interface.signals@,
        false,
    ) + properties_xml(interface.properties@) + lit("  </interface>\n")));
    assert(out@ =~= old(out)@ + interface_xml(*interface));
}

/// Answers `Introspect`: the description of the object, as the bytes of
/// its XML.
#[verifier::rlimit(60)]
#[verifier::spinoff_prover]
pub fn introspect(node: &NodeInfo) -> (r: Vec<u8>)
    ensures
        r@ == node_xml(*node),
{
    let mut out: Vec<u8> = Vec::new();
    write(&mut out, DOCTYPE);
    write(&mut out, "<node>\n");
    let ghost head = out@;
    let ghost all = node.interfaces@;
    let mut i: usize = 0;
    assert(all.take(0) =~= seq![]);
    assert(out@ =~= head + interfaces_xml(all.take(0)));
    while i < node.interfaces.len()
        invariant
            i <= node.interfaces.len(),
            all == node.interfaces@,
            out@ == head + interfaces_xml(all.take(i as int)),
        decreases node.interfaces.len() - i,
    {
        let ghost next = all.take(i + 1);
        assert(next.drop_last() =~= all.take(i as int));
        assert(next.last() == all[i as int]);
        write_interface(&mut out, &node.interfaces[i]);
        assert(out@ =~= head + interfaces_xml(next));
        i += 1;
    }
    assert(all.take(node.interfaces.len() as int) =~= all);
    let ghost middle = out@;
    let ghost names = node.children@;
    let mut k: usize = 0;
    assert(names.take(0) =~= seq![]);
    assert(out@ =~= middle + children_xml(names.take(0)));
    while k < node.children.len()
        invariant
            k <= node.children.len(),
            names == node.children@,
            out@ == middle + children_xml(names.take(k as int)),
        decreases node.children.len() - k,
    {
        let ghost before = out@;
        let ghost next = names.take(k + 1);
        assert(next.drop_last() =~= names.take(k as int));
        assert(next.last() == names[k as int]);
        write(&mut out, "  <node");
        write_attribute(&mut out, "name", node.children[k].as_str());
        write(&mut out, "/>\n");
        assert(out@ =~= before + (lit("  <node") + attribute("name", names[k as int]@) + lit(
            "/>\n",
        )));
        k += 1;
    }
    assert(names.take(node.children.len() as int) =~= names);
    write(&mut out, "</node>\n");
    assert(out@ =~= node_xml(*node));
    out
}

} // verus!
