//! The object server: which objects a connection exports, which interfaces
//! they have, and where a call that comes in is to go.

use vstd::prelude::*;
use vstd::string::StringSliceAdditionalSpecFns;
use vstd::utf8::encode_utf8;
use crate::match_rule::{in_path_namespace, path_in_namespace};
use crate::text::str_eq;

verus! {

/// The name of the interface that every object of every peer has.
pub const PEER: &'static str = "org.freedesktop.DBus.Peer";

/// The name of the interface that describes an object.
pub const INTROSPECTABLE: &'static str = "org.freedesktop.DBus.Introspectable";

/// The name of the interface that gives access to properties.
pub const PROPERTIES: &'static str = "org.freedesktop.DBus.Properties";

/// The name of the interface that lists the objects below an object.
pub const OBJECT_MANAGER: &'static str = "org.freedesktop.DBus.ObjectManager";

/// An interface that the user registered: its name, and the names of its
/// methods.
#[derive(Debug, PartialEq, Eq)]
pub struct Interface {
    pub name: String,
    pub methods: Vec<String>,
}

/// An object that the connection exports: its path, the interfaces that the
/// user registered at it, and whether an object manager is attached to it.
#[derive(Debug, PartialEq, Eq)]
pub struct Node {
    pub path: String,
    pub interfaces: Vec<Interface>,
    pub object_manager: bool,
}

/// A method of an interface that the server implements itself.
#[derive(Clone, Copy, Debug, PartialEq, Eq, Structural)]
pub enum Standard {
    /// `Peer.Ping`
    Ping,
    /// `Peer.GetMachineId`
    GetMachineId,
    /// `Introspectable.Introspect`
    Introspect,
    /// `Properties.Get`
    PropertiesGet,
    /// `Properties.Set`
    PropertiesSet,
    /// `Properties.GetAll`
    PropertiesGetAll,
    /// `ObjectManager.GetManagedObjects`
    GetManagedObjects,
}

/// Where a call is to go.
#[derive(Clone, Copy, Debug, PartialEq, Eq, Structural)]
pub enum Dispatch {
    /// To the method with this index, of the interface with this index, of
    /// the node with this index.
    Method { node: usize, interface: usize, method: usize },
    /// To a method that the server implements itself. The node is the
    /// index of the object that was called, if it is registered.
    Builtin { standard: Standard, object: Option<usize> },
    /// Nowhere: there is no object at the path.
    UnknownObject,
    /// Nowhere: the object has no such interface.
    UnknownInterface,
    /// Nowhere: the interface has no such method.
    UnknownMethod,
}

/// The index of the first text in `names` that is `wanted`, if there is one.
pub open spec fn index_of(names: Seq<Seq<char>>, wanted: Seq<char>) -> Option<int>
    decreases names.len(),
{
    if names.len() == 0 {
        None
    } else if names[0] == wanted {
        Some(0)
    } else {
        match index_of(names.drop_first(), wanted) {
            Some(i) => Some(i + 1),
            None => None,
        }
    }
}

/// What `index_of` gives is the first place where the text stands.
pub proof fn lemma_index_of(names: Seq<Seq<char>>, wanted: Seq<char>)
    ensures
        match index_of(names, wanted) {
            Some(i) => 0 <= i < names.len() && names[i] == wanted && forall|k: int|
                0 <= k < i ==> names[k] != wanted,
            None => forall|k: int| 0 <= k < names.len() ==> names[k] != wanted,
        },
    decreases names.len(),
{
    if names.len() > 0 && names[0] != wanted {
        let rest = names.drop_first();
        lemma_index_of(rest, wanted);
        match index_of(rest, wanted) {
            Some(i) => {
                assert forall|k: int| 0 <= k < i + 1 implies names[k] != wanted by {
                    if k > 0 {
                        assert(rest[k - 1] == names[k]);
                    }
                }
                assert(rest[i] == names[i + 1]);
            },
            None => {
                assert forall|k: int| 0 <= k < names.len() implies names[k] != wanted by {
                    if k > 0 {
                        assert(rest[k - 1] == names[k]);
                    }
                }
            },
        }
    }
}

/// The first place where a text stands is that place.
pub proof fn lemma_index_of_is(names: Seq<Seq<char>>, wanted: Seq<char>, i: int)
    requires
        0 <= i < names.len(),
        names[i] == wanted,
        forall|k: int| 0 <= k < i ==> names[k] != wanted,
    ensures
        index_of(names, wanted) == Some(i),
{
    lemma_index_of(names, wanted);
}

/// No text in `names` is `wanted`.
pub proof fn lemma_index_of_none(names: Seq<Seq<char>>, wanted: Seq<char>)
    requires
        forall|k: int| 0 <= k < names.len() ==> names[k] != wanted,
    ensures
        index_of(names, wanted) is None,
{
    lemma_index_of(names, wanted);
}

/// The texts of a row of strings.
pub open spec fn texts_of(names: Seq<String>) -> Seq<Seq<char>> {
    Seq::new(names.len(), |i: int| names[i]@)
}

/// The names of a row of interfaces.
pub open spec fn interface_names(interfaces: Seq<Interface>) -> Seq<Seq<char>> {
    Seq::new(interfaces.len(), |i: int| interfaces[i].name@)
}

/// The paths of a row of nodes.
pub open spec fn node_paths(nodes: Seq<Node>) -> Seq<Seq<char>> {
    Seq::new(nodes.len(), |i: int| nodes[i].path@)
}

/// The method of the interface `Peer` with this name, if it has one.
pub open spec fn peer_method(member: Seq<char>) -> Option<Standard> {
    if member == "Ping"@ {
        Some(Standard::Ping)
    } else if member == "GetMachineId"@ {
        Some(Standard::GetMachineId)
    } else {
        None
    }
}

/// The method with this name of the standard interface with this name, on
/// an object that may have an object manager attached. `None` where the
/// interface is none of the standard ones; `Some(None)` where it is one and
/// has no such method.
pub open spec fn standard_method(interface: Seq<char>, member: Seq<char>, manager: bool) -> Option<
    Option<Standard>,
> {
    if interface == PEER@ {
        Some(peer_method(member))
    } else if interface == INTROSPECTABLE@ {
        Some(
            if member == "Introspect"@ {
                Some(Standard::Introspect)
            } else {
                None
            },
        )
    } else if interface == PROPERTIES@ {
        Some(
            if member == "Get"@ {
                Some(Standard::PropertiesGet)
            } else if member == "Set"@ {
                Some(Standard::PropertiesSet)
            } else if member == "GetAll"@ {
                Some(Standard::PropertiesGetAll)
            } else {
                None
            },
        )
    } else if interface == OBJECT_MANAGER@ && manager {
        Some(
            if member == "GetManagedObjects"@ {
                Some(Standard::GetManagedObjects)
            } else {
                None
            },
        )
    } else {
        None
    }
}

/// The first interface among `interfaces`, from the index `from` on, that
/// has a method `member`: its index and that of the method.
pub open spec fn first_with_method(interfaces: Seq<Interface>, member: Seq<char>, from: int) -> Option<
    (int, int),
>
    decreases interfaces.len() - from,
{
    if from < 0 || from >= interfaces.len() {
        None
    } else {
        match index_of(texts_of(interfaces[from].methods@), member) {
            Some(m) => Some((from, m)),
            None => first_with_method(interfaces, member, from + 1),
        }
    }
}

/// Where a call of `member` on the registered object `node`, which has the
/// index `n`, is to go.
///
/// A call that names an interface goes to that interface, as the user
/// registered it or, failing that, as the server implements it. A call that
/// names none goes to the first registered interface that has the method.
pub open spec fn dispatched_at(node: Node, n: usize, interface: Option<Seq<char>>, member: Seq<char>) -> Dispatch {
    match interface {
        Some(name) => match index_of(interface_names(node.interfaces@), name) {
            Some(i) => match index_of(texts_of(node.interfaces@[i].methods@), member) {
                Some(m) => Dispatch::Method { node: n, interface: i as usize, method: m as usize },
                None => Dispatch::UnknownMethod,
            },
            None => match standard_method(name, member, node.object_manager) {
                Some(Some(method)) => Dispatch::Builtin { standard: method, object: Some(n) },
                Some(None) => Dispatch::UnknownMethod,
                None => Dispatch::UnknownInterface,
            },
        },
        None => match first_with_method(node.interfaces@, member, 0) {
            Some((i, m)) => Dispatch::Method { node: n, interface: i as usize, method: m as usize },
            None => Dispatch::UnknownMethod,
        },
    }
}

/// Where a call of `member` on the object at `path` is to go.
///
/// An object that is not registered has the interface `Peer` all the same:
/// it does not matter which path a ping is sent to. Every other call to it
/// finds no object.
pub open spec fn dispatched(
    nodes: Seq<Node>,
    path: Seq<char>,
    interface: Option<Seq<char>>,
    member: Seq<char>,
) -> Dispatch {
    match index_of(node_paths(nodes), path) {
        Some(n) => dispatched_at(nodes[n], n as usize, interface, member),
        None => if interface == Some(PEER@) {
            match peer_method(member) {
                Some(method) => Dispatch::Builtin { standard: method, object: None },
                None => Dispatch::UnknownMethod,
            }
        } else {
            Dispatch::UnknownObject
        },
    }
}

/// The index of the first string in `names` that is `wanted`.
pub fn find_name(names: &Vec<String>, wanted: &str) -> (r: Option<usize>)
    ensures
        match r {
            Some(n) => n < names.len() && index_of(texts_of(names@), wanted@) == Some(n as int),
            None => index_of(texts_of(names@), wanted@) is None,
        },
{
    let ghost all = texts_of(names@);
    let mut i: usize = 0;
    while i < names.len()
        invariant
            i <= names.len(),
            all == texts_of(names@),
            forall|k: int| 0 <= k < i ==> all[k] != wanted@,
        decreases names.len() - i,
    {
        if str_eq(names[i].as_str(), wanted) {
            proof {
                assert(all[i as int] == wanted@);
                lemma_index_of_is(all, wanted@, i as int);
            }
            return Some(i);
        }
        assert(all[i as int] == names[i as int]@);
        i += 1;
    }
    proof {
        lemma_index_of_none(all, wanted@);
    }
    None
}

/// The index of the first interface in `interfaces` with the name `wanted`.
pub fn find_interface(interfaces: &Vec<Interface>, wanted: &str) -> (r: Option<usize>)
    ensures
        match r {
            Some(n) => n < interfaces.len() && index_of(interface_names(interfaces@), wanted@)
                == Some(n as int),
            None => index_of(interface_names(interfaces@), wanted@) is None,
        },
{
    let ghost all = interface_names(interfaces@);
    let mut i: usize = 0;
    while i < interfaces.len()
        invariant
            i <= interfaces.len(),
            all == interface_names(interfaces@),
            forall|k: int| 0 <= k < i ==> all[k] != wanted@,
        decreases interfaces.len() - i,
    {
        if str_eq(interfaces[i].name.as_str(), wanted) {
            proof {
                assert(all[i as int] == wanted@);
                lemma_index_of_is(all, wanted@, i as int);
            }
            return Some(i);
        }
        assert(all[i as int] == interfaces[i as int].name@);
        i += 1;
    }
    proof {
        lemma_index_of_none(all, wanted@);
    }
    None
}

/// The index of the first node in `nodes` with the path `wanted`.
pub fn find_node(nodes: &Vec<Node>, wanted: &str) -> (r: Option<usize>)
    ensures
        match r {
            Some(n) => n < nodes.len() && index_of(node_paths(nodes@), wanted@) == Some(n as int),
            None => index_of(node_paths(nodes@), wanted@) is None,
        },
{
    let ghost all = node_paths(nodes@);
    let mut i: usize = 0;
    while i < nodes.len()
        invariant
            i <= nodes.len(),
            all == node_paths(nodes@),
            forall|k: int| 0 <= k < i ==> all[k] != wanted@,
        decreases nodes.len() - i,
    {
        if str_eq(nodes[i].path.as_str(), wanted) {
            proof {
                assert(all[i as int] == wanted@);
                lemma_index_of_is(all, wanted@, i as int);
            }
            return Some(i);
        }
        assert(all[i as int] == nodes[i as int].path@);
        i += 1;
    }
    proof {
        lemma_index_of_none(all, wanted@);
    }
    None
}

/// The method of the interface `Peer` with this name.
pub fn find_peer_method(member: &str) -> (r: Option<Standard>)
    ensures
        r == peer_method(member@),
{
    if str_eq(member, "Ping") {
        Some(Standard::Ping)
    } else if str_eq(member, "GetMachineId") {
        Some(Standard::GetMachineId)
    } else {
        None
    }
}

/// The method with this name of the standard interface with this name.
pub fn find_standard_method(interface: &str, member: &str, manager: bool) -> (r: Option<
    Option<Standard>,
>)
    ensures
        r == standard_method(interface@, member@, manager),
{
    if str_eq(interface, PEER) {
        Some(find_peer_method(member))
    } else if str_eq(interface, INTROSPECTABLE) {
        Some(
            if str_eq(member, "Introspect") {
                Some(Standard::Introspect)
            } else {
                None
            },
        )
    } else if str_eq(interface, PROPERTIES) {
        Some(
            if str_eq(member, "Get") {
                Some(Standard::PropertiesGet)
            } else if str_eq(member, "Set") {
                Some(Standard::PropertiesSet)
            } else if str_eq(member, "GetAll") {
                Some(Standard::PropertiesGetAll)
            } else {
                None
            },
        )
    } else if manager && str_eq(interface, OBJECT_MANAGER) {
        Some(
            if str_eq(member, "GetManagedObjects") {
                Some(Standard::GetManagedObjects)
            } else {
                None
            },
        )
    } else {
        None
    }
}

/// The objects that a connection exports.
#[derive(Debug, PartialEq, Eq)]
pub struct ObjectServer {
    pub nodes: Vec<Node>,
}

/// The first node among `nodes`, from the index `from` on, that has an
/// object manager attached and lies above `path`.
pub open spec fn manager_above(nodes: Seq<Node>, path: Seq<char>, from: int) -> Option<int>
    decreases nodes.len() - from,
{
    if from < 0 || from >= nodes.len() {
        None
    } else if nodes[from].object_manager && nodes[from].path@ != path && in_path_namespace(
        encode_utf8(path),
        encode_utf8(nodes[from].path@),
    ) {
        Some(from)
    } else {
        manager_above(nodes, path, from + 1)
    }
}

impl ObjectServer {
    /// A server that exports nothing.
    pub fn new() -> (s: ObjectServer)
        ensures
            s.nodes@.len() == 0,
    {
        ObjectServer { nodes: Vec::new() }
    }

    /// Says where a call of `member` on the object at `path` is to go.
    #[verifier::rlimit(60)]
    #[verifier::spinoff_prover]
    pub fn dispatch(&self, path: &str, interface: Option<&str>, member: &str) -> (r: Dispatch)
        ensures
            r == dispatched(
                self.nodes@,
                path@,
                match interface {
                    Some(name) => Some(name@),
                    None => None,
                },
                member@,
            ),
    {
        let n = match find_node(&self.nodes, path) {
            Some(n) => n,
            None => {
                return match interface {
                    Some(name) => if str_eq(name, PEER) {
                        match find_peer_method(member) {
                            Some(method) => Dispatch::Builtin { standard: method, object: None },
                            None => Dispatch::UnknownMethod,
                        }
                    } else {
                        Dispatch::UnknownObject
                    },
                    None => Dispatch::UnknownObject,
                };
            },
        };
        let node = &self.nodes[n];
        match interface {
            Some(name) => match find_interface(&node.interfaces, name) {
                Some(i) => match find_name(&node.interfaces[i].methods, member) {
                    Some(m) => Dispatch::Method { node: n, interface: i, method: m },
                    None => Dispatch::UnknownMethod,
                },
                None => match find_standard_method(name, member, node.object_manager) {
                    Some(Some(method)) => Dispatch::Builtin { standard: method, object: Some(n) },
                    Some(None) => Dispatch::UnknownMethod,
                    None => Dispatch::UnknownInterface,
                },
            },
            None => {
                let mut i: usize = 0;
                while i < node.interfaces.len()
                    invariant
                        i <= node.interfaces.len(),
                        interface is None,
                        n < self.nodes@.len(),
                        *node == self.nodes@[n as int],
                        index_of(node_paths(self.nodes@), path@) == Some(n as int),
                        first_with_method(node.interfaces@, member@, 0) == first_with_method(
                            node.interfaces@,
                            member@,
                            i as int,
                        ),
                    decreases node.interfaces.len() - i,
                {
                    match find_name(&node.interfaces[i].methods, member) {
                        Some(m) => {
                            return Dispatch::Method { node: n, interface: i, method: m };
                        },
                        None => {},
                    }
                    i += 1;
                }
                Dispatch::UnknownMethod
            },
        }
    }

    /// Registers the interface at the path. Tells whether it was added: an
    /// object has each interface once.
    ///
    /// Gives, beside that, the index of the node with an object manager
    /// above the path, if there is one: that manager announces the interface
    /// once the connection is ready.
    #[verifier::rlimit(60)]
    #[verifier::spinoff_prover]
    pub fn at(&mut self, path: &str, interface: Interface) -> (r: (bool, Option<usize>))
        ensures
            r.1 matches Some(m) ==> m < final(self).nodes@.len(),
            match index_of(node_paths(old(self).nodes@), path@) {
                Some(n) => {
                    &&& final(self).nodes@.len() == old(self).nodes@.len()
                    &&& forall|k: int|
                        0 <= k < old(self).nodes@.len() && k != n ==> final(self).nodes@[k] == old(
                            self,
                        ).nodes@[k]
                    &&& final(self).nodes@[n].path == old(self).nodes@[n].path
                    &&& final(self).nodes@[n].object_manager == old(self).nodes@[n].object_manager
                    &&& if index_of(
                        interface_names(old(self).nodes@[n].interfaces@),
                        interface.name@,
                    ) is Some {
                        !r.0 && final(self).nodes@[n].interfaces@ == old(self).nodes@[n].interfaces@
                    } else {
                        r.0 && final(self).nodes@[n].interfaces@ == old(
                            self,
                        ).nodes@[n].interfaces@.push(interface)
                    }
                },
                None => {
                    &&& r.0
                    &&& final(self).nodes@.len() == old(self).nodes@.len() + 1
                    &&& forall|k: int|
                        0 <= k < old(self).nodes@.len() ==> final(self).nodes@[k] == old(
                            self,
                        ).nodes@[k]
                    &&& final(self).nodes@.last().path@ == path@
                    &&& final(self).nodes@.last().interfaces@ == seq![interface]
                    &&& !final(self).nodes@.last().object_manager
                },
            },
            match r.1 {
                Some(m) => manager_above(old(self).nodes@, path@, 0) == Some(m as int),
                None => manager_above(old(self).nodes@, path@, 0) is None,
            },
    {
        let manager = self.manager_of(path);
        match find_node(&self.nodes, path) {
            Some(n) => {
                if find_interface(&self.nodes[n].interfaces, interface.name.as_str()).is_some() {
                    return (false, manager);
                }
                let ghost before = self.nodes@;
                let mut node = self.nodes.remove(n);
                node.interfaces.push(interface);
                self.nodes.insert(n, node);
                assert(self.nodes@.len() == before.len());
                assert forall|k: int| 0 <= k < before.len() && k != n implies self.nodes@[k]
                    == before[k] by {}
                (true, manager)
            },
            None => {
                let mut interfaces: Vec<Interface> = Vec::new();
                interfaces.push(interface);
                self.nodes.push(Node { path: path.to_owned(), interfaces, object_manager: false });
                (true, manager)
            },
        }
    }

    /// Takes the interface with the name `interface` from the object at
    /// the path. Tells whether there was one to take.
    ///
    /// Gives, beside that, the index of the node with an object manager
    /// above the path, if there is one: that manager tells that the interface
    /// is gone.
    #[verifier::rlimit(60)]
    #[verifier::spinoff_prover]
    pub fn remove(&mut self, path: &str, interface: &str) -> (r: (bool, Option<usize>))
        ensures
            r.1 matches Some(m) ==> m < final(self).nodes@.len(),
            final(self).nodes@.len() == old(self).nodes@.len(),
            match index_of(node_paths(old(self).nodes@), path@) {
                Some(n) => {
                    &&& forall|k: int|
                        0 <= k < old(self).nodes@.len() && k != n ==> final(self).nodes@[k] == old(
                            self,
                        ).nodes@[k]
                    &&& final(self).nodes@[n].path == old(self).nodes@[n].path
                    &&& final(self).nodes@[n].object_manager == old(self).nodes@[n].object_manager
                    &&& match index_of(
                        interface_names(old(self).nodes@[n].interfaces@),
                        interface@,
                    ) {
                        Some(i) => r.0 && final(self).nodes@[n].interfaces@ == old(
                            self,
                        ).nodes@[n].interfaces@.remove(i),
                        None => !r.0 && final(self).nodes@[n].interfaces@ == old(
                            self,
                        ).nodes@[n].interfaces@,
                    }
                },
                None => !r.0 && final(self).nodes@ == old(self).nodes@,
            },
            match r.1 {
                Some(m) => manager_above(old(self).nodes@, path@, 0) == Some(m as int),
                None => manager_above(old(self).nodes@, path@, 0) is None,
            },
    {
        let manager = self.manager_of(path);
        match find_node(&self.nodes, path) {
            Some(n) => {
                match find_interface(&self.nodes[n].interfaces, interface) {
                    Some(i) => {
                        let ghost before = self.nodes@;
                        let mut node = self.nodes.remove(n);
                        node.interfaces.remove(i);
                        self.nodes.insert(n, node);
                        assert(self.nodes@.len() == before.len());
                        assert forall|k: int|
                            0 <= k < before.len() && k != n implies self.nodes@[k]
                            == before[k] by {}
                        (true, manager)
                    },
                    None => (false, manager),
                }
            },
            None => (false, manager),
        }
    }

    /// The index of the first node with an object manager above the path.
    pub fn manager_of(&self, path: &str) -> (r: Option<usize>)
        ensures
            match r {
                Some(m) => m < self.nodes@.len() && manager_above(self.nodes@, path@, 0) == Some(
                    m as int,
                ),
                None => manager_above(self.nodes@, path@, 0) is None,
            },
    {
        let mut i: usize = 0;
        while i < self.nodes.len()
            invariant
                i <= self.nodes.len(),
                manager_above(self.nodes@, path@, 0) == manager_above(self.nodes@, path@, i as int),
            decreases self.nodes.len() - i,
        {
            let node = &self.nodes[i];
            if node.object_manager && !str_eq(node.path.as_str(), path) && path_in_namespace(
                path.as_bytes(),
                node.path.as_str().as_bytes(),
            ) {
                return Some(i);
            }
            i += 1;
        }
        None
    }
}

/// A ping finds its way on every path: a call of `Peer.Ping` is answered by
/// the server whether or not an object is registered at the path, unless
/// the user registered an interface of that name there. And on a path
/// without an object, a method that `Peer` does not have is unknown.
pub proof fn lemma_peer_is_everywhere(nodes: Seq<Node>, path: Seq<char>, member: Seq<char>)
    ensures
        index_of(node_paths(nodes), path) is None ==> dispatched(
            nodes,
            path,
            Some(PEER@),
            "Ping"@,
        ) == (Dispatch::Builtin { standard: Standard::Ping, object: None }),
        index_of(node_paths(nodes), path) is None && peer_method(member) is None ==> dispatched(
            nodes,
            path,
            Some(PEER@),
            member,
        ) == Dispatch::UnknownMethod,
        index_of(node_paths(nodes), path) is Some && index_of(
            interface_names(nodes[index_of(node_paths(nodes), path)->0].interfaces@),
            PEER@,
        ) is None ==> dispatched(nodes, path, Some(PEER@), "Ping"@) == (Dispatch::Builtin {
            standard: Standard::Ping,
            object: Some(index_of(node_paths(nodes), path)->0 as usize),
        }),
{
}

} // verus!
