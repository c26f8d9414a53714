//! Extraction of graph nodes (processes, files, sockets) and edges (a process
//! acting on an entity) from records.

use vstd::prelude::*;

use crate::pattern::{capture_groups, opt_view, regex_capture, regex_compiles, Pattern};
use crate::syscall_parser::{group_of, SystemCall, SystemCallView};
use crate::text::{
    chars_of, decimal, find_char, index_of, lemma_index_of_from, u64_to_decimal, usize_to_decimal,
};
use vstd::string::{StrSliceExecFns, StringExecFns};

verus! {

/// The kind of a graph node.
#[derive(Debug, Clone, Copy, PartialEq, Eq, Structural)]
pub enum NodeType {
    Process,
    File,
    Socket,
}

/// The name a node type is written with.
pub open spec fn node_type_name(t: NodeType) -> Seq<char> {
    match t {
        NodeType::Process => "Process"@,
        NodeType::File => "File"@,
        NodeType::Socket => "Socket"@,
    }
}

impl NodeType {
    /// The name this node type is written with.
    pub fn as_str(&self) -> (s: &'static str)
        ensures
            s@ == node_type_name(*self),
    {
        match self {
            NodeType::Process => "Process",
            NodeType::File => "File",
            NodeType::Socket => "Socket",
        }
    }
}

/// The names of the nodes already written.
///
/// It stands for a `HashSet<String>`: the names are kept in a `Vec`, and its
/// model is the set of them, so that what the store holds after each check is
/// proved. Verus proves nothing of what a `HashSet` with `String` elements
/// holds.
#[derive(Debug)]
pub struct NodeStore {
    names: Vec<String>,
}

impl View for NodeStore {
    type V = Set<Seq<char>>;

    closed spec fn view(&self) -> Set<Seq<char>> {
        Set::new(|k: Seq<char>| exists|i: int| 0 <= i < self.names@.len() && #[trigger] self.names@[i]@ == k)
    }
}

impl NodeStore {
    /// No name is held twice.
    #[verifier::type_invariant]
    closed spec fn no_name_twice(self) -> bool {
        forall|i: int, j: int|
            0 <= i < j < self.names@.len() ==> #[trigger] self.names@[i]@ != #[trigger] self.names@[j]@
    }

    /// A store holding no name.
    pub fn new() -> (r: NodeStore)
        ensures
            r@ == Set::<Seq<char>>::empty(),
    {
        let r = NodeStore { names: Vec::new() };
        assert(r@ =~= Set::<Seq<char>>::empty());
        r
    }

    /// Whether `name` is held.
    pub fn contains(&self, name: &String) -> (b: bool)
        ensures
            b == self@.contains(name@),
    {
        let mut i: usize = 0;
        while i < self.names.len()
            invariant
                0 <= i <= self.names@.len(),
                forall|j: int| 0 <= j < i ==> self.names@[j]@ != name@,
            decreases self.names@.len() - i,
        {
            if self.names[i] == *name {
                assert(self.names@[i as int]@ == name@);
                return true;
            }
            i = i + 1;
        }
        false
    }

    /// Adds `node_name`; true when it was not held before, that is, when the
    /// node still has to be written.
    pub fn check_node_store(&mut self, node_name: &String) -> (is_new: bool)
        ensures
            is_new == !old(self)@.contains(node_name@),
            final(self)@ == old(self)@.insert(node_name@),
    {
        if self.contains(node_name) {
            assert(self@ =~= old(self)@.insert(node_name@));
            false
        } else {
            proof {
                use_type_invariant(&*self);
            }
            let ghost before = self.names@;
            let mut names: Vec<String> = Vec::new();
            std::mem::swap(&mut names, &mut self.names);
            names.push(node_name.clone());
            proof {
                assert forall|i: int, j: int| 0 <= i < j < names@.len() implies #[trigger] names@[i]@
                    != #[trigger] names@[j]@ by {
                    if j == before.len() {
                        assert(names@[i] == before[i]);
                        assert(before[i]@ != node_name@);
                    } else {
                        assert(names@[i] == before[i]);
                        assert(names@[j] == before[j]);
                    }
                }
            }
            self.names = names;
            assert forall|k: Seq<char>| #[trigger] self@.contains(k) <==> old(self)@.insert(node_name@).contains(k) by {
                if old(self)@.contains(k) {
                    let j = choose|j: int| 0 <= j < before.len() && #[trigger] before[j]@ == k;
                    assert(self.names@[j] == before[j]);
                }
                if self@.contains(k) {
                    let j = choose|j: int| 0 <= j < self.names@.len() && #[trigger] self.names@[j]@ == k;
                    if j < before.len() {
                        assert(self.names@[j] == before[j]);
                    }
                }
                if k == node_name@ {
                    assert(self.names@[before.len() as int]@ == k);
                }
            }
            assert(self@ =~= old(self)@.insert(node_name@));
            true
        }
    }
}


/// A file named relative to a directory descriptor, as `openat` and
/// `newfstatat` write it.
pub const FILE_WITH_DIRFD: &'static str = r#"dirfd=(\d+|AT_FDCWD)<(?<dirfd>/[^>]*)>, pathname="(?<file>[/\S\s]*?)","#;

/// A file descriptor decoded to its path.
pub const FILE_DESCRIPTOR: &'static str = r"\d+<(?<file>/[^>]*)>";

/// A path name argument.
pub const PATH_NAME: &'static str = r#"pathname="(?<file>[/\S\s]*?)","#;

/// A socket descriptor decoded to its protocol and address.
pub const SOCKET: &'static str = r"<(?<network>(TCP|UDP|TCPv6|UDPv6):\[\S*\])>";

/// Every entity pattern compiles.
pub open spec fn entity_patterns_compile() -> bool {
    &&& regex_compiles(FILE_WITH_DIRFD@)
    &&& regex_compiles(FILE_DESCRIPTOR@)
    &&& regex_compiles(PATH_NAME@)
    &&& regex_compiles(SOCKET@)
}

/// The compiled entity patterns.
#[derive(Debug)]
pub struct EntityPatterns {
    files_dirfd: Pattern,
    files: Pattern,
    pathname: Pattern,
    sockets: Pattern,
}

impl EntityPatterns {
    #[verifier::type_invariant]
    closed spec fn compiled_from_constants(self) -> bool {
        &&& self.files_dirfd.source() == FILE_WITH_DIRFD@
        &&& self.files.source() == FILE_DESCRIPTOR@
        &&& self.pathname.source() == PATH_NAME@
        &&& self.sockets.source() == SOCKET@
    }

    /// Compiles the entity patterns; `None` exactly when one of them does not compile.
    pub fn new() -> (r: Option<EntityPatterns>)
        ensures
            r is Some <==> entity_patterns_compile(),
    {
        let files_dirfd = Pattern::new(FILE_WITH_DIRFD)?;
        let files = Pattern::new(FILE_DESCRIPTOR)?;
        let pathname = Pattern::new(PATH_NAME)?;
        let sockets = Pattern::new(SOCKET)?;
        Some(EntityPatterns { files_dirfd, files, pathname, sockets })
    }
}

/// Why the graph entries of a record could not be found.
#[derive(Debug, Clone, Copy, PartialEq, Eq, Structural)]
pub enum GraphError {
    /// A successful process creation without a return value.
    MissingReturnValue,
    /// The return value of a process creation has no `<` before the process name.
    MissingProcessName,
    /// A pattern matched without the group that names the entity.
    MissingGroup,
}

/// A node to be written.
#[derive(Debug, Clone)]
pub struct GraphNode {
    pub name: String,
    pub node_type: NodeType,
}

/// An edge to be written: a process acting on an entity through a call.
#[derive(Debug, Clone)]
pub struct GraphEdge {
    pub process: String,
    pub target: String,
    pub call_name: String,
    pub timestamp: u64,
    pub successful: bool,
}

/// The nodes and the edge found for one record.
#[derive(Debug)]
pub struct GraphEntries {
    pub nodes: Vec<GraphNode>,
    pub edge: Option<GraphEdge>,
}

/// The model of an edge.
pub struct GraphEdgeView {
    pub process: Seq<char>,
    pub target: Seq<char>,
    pub call_name: Seq<char>,
    pub timestamp: u64,
    pub successful: bool,
}

impl View for GraphEdge {
    type V = GraphEdgeView;

    open spec fn view(&self) -> GraphEdgeView {
        GraphEdgeView {
            process: self.process@,
            target: self.target@,
            call_name: self.call_name@,
            timestamp: self.timestamp,
            successful: self.successful,
        }
    }
}

/// A CSV field: the text in double quotes.
pub open spec fn csv_field(t: Seq<char>) -> Seq<char> {
    "\""@ + t + "\""@
}

/// The CSV line of a node: its quoted name and type name.
pub open spec fn node_line(name: Seq<char>, ty: NodeType) -> Seq<char> {
    csv_field(name) + ","@ + csv_field(node_type_name(ty))
}

/// How the success of an edge is written.
pub open spec fn flag_text(b: bool) -> Seq<char> {
    if b {
        "true"@
    } else {
        "false"@
    }
}

/// The CSV line of an edge: process, target, call name, timestamp in decimal
/// and success flag, each quoted.
pub open spec fn edge_line(e: GraphEdgeView) -> Seq<char> {
    csv_field(e.process) + ","@ + csv_field(e.target) + ","@ + csv_field(e.call_name) + ","@ + csv_field(
        decimal(e.timestamp as nat),
    ) + ","@ + csv_field(flag_text(e.successful))
}

/// Appends `t` in double quotes to `line`.
fn push_field(line: &mut String, t: &str)
    ensures
        final(line)@ == old(line)@ + csv_field(t@),
{
    line.append("\"");
    line.append(t);
    line.append("\"");
    assert(final(line)@ =~= old(line)@ + csv_field(t@));
}

impl GraphNode {
    /// The line this node is written as in the node file.
    pub fn csv_line(&self) -> (l: String)
        ensures
            l@ == node_line(self.name@, self.node_type),
    {
        let mut line = String::new();
        push_field(&mut line, self.name.as_str());
        line.append(",");
        push_field(&mut line, self.node_type.as_str());
        assert(line@ =~= node_line(self.name@, self.node_type));
        line
    }
}

impl GraphEdge {
    /// The line this edge is written as in the edge file.
    pub fn csv_line(&self) -> (l: String)
        ensures
            l@ == edge_line(self@),
    {
        let mut line = String::new();
        push_field(&mut line, self.process.as_str());
        line.append(",");
        push_field(&mut line, self.target.as_str());
        line.append(",");
        push_field(&mut line, self.call_name.as_str());
        line.append(",");
        let ts = u64_to_decimal(self.timestamp);
        push_field(&mut line, ts.as_str());
        line.append(",");
        let flag = if self.successful {
            "true"
        } else {
            "false"
        };
        push_field(&mut line, flag);
        assert(line@ =~= edge_line(self@));
        line
    }
}

/// The models of a list of nodes.
pub open spec fn nodes_view(s: Seq<GraphNode>) -> Seq<(Seq<char>, NodeType)> {
    s.map_values(|n: GraphNode| (n.name@, n.node_type))
}

/// The model of an optional edge.
pub open spec fn edge_view(e: Option<GraphEdge>) -> Option<GraphEdgeView> {
    match e {
        Some(e) => Some(e@),
        None => None,
    }
}

/// `s` without the character `c`.
pub open spec fn without_char(s: Seq<char>, c: char) -> Seq<char>
    decreases s.len(),
{
    if s.len() == 0 {
        s
    } else if s.last() == c {
        without_char(s.drop_last(), c)
    } else {
        without_char(s.drop_last(), c).push(s.last())
    }
}

/// The node of a process: its id, `-`, and its name.
pub open spec fn process_node(pid: usize, procname: Seq<char>) -> Seq<char> {
    decimal(pid as nat) + "-"@ + procname
}

/// A successful `clone`, `clone3` or `fork`.
pub open spec fn is_process_creation(e: SystemCallView) -> bool {
    (e.name == "clone"@ || e.name == "clone3"@ || e.name == "fork"@) && e.successful == "successful"@
}

/// The node of the process a creation returned (`PID<NAME>`): `PID-NAME`
/// without any `>`; `None` when there is no `<`.
pub open spec fn created_process(ret: Seq<char>) -> Option<Seq<char>> {
    match index_of(ret, '<') {
        None => None,
        Some(a) => Some(ret.take(a) + "-"@ + without_char(ret.skip(a + 1), '>')),
    }
}

/// Whether an entity pattern matches, read by the group that names the entity.
pub open spec fn entity_matches(pattern: Seq<char>, a: Seq<char>, group: Seq<char>) -> bool {
    regex_capture(pattern, a, group) is Some
}

/// The entity patterns, by what they find.
#[derive(Debug, Clone, Copy, PartialEq, Eq, Structural)]
pub enum EntityKind {
    /// A file descriptor relative to a directory descriptor.
    DirfdFile,
    /// A file descriptor decoded to its path.
    FileDescriptor,
    /// A path name argument.
    PathName,
    /// A socket descriptor.
    Socket,
}

/// The pattern of an entity kind.
pub open spec fn entity_pattern(k: EntityKind) -> Seq<char> {
    match k {
        EntityKind::DirfdFile => FILE_WITH_DIRFD@,
        EntityKind::FileDescriptor => FILE_DESCRIPTOR@,
        EntityKind::PathName => PATH_NAME@,
        EntityKind::Socket => SOCKET@,
    }
}

/// The group that names the entity in the pattern of an entity kind.
pub open spec fn entity_group(k: EntityKind) -> Seq<char> {
    match k {
        EntityKind::Socket => "network"@,
        _ => "file"@,
    }
}

/// The kind of the first entity pattern that matches the argument text `a`,
/// in the order file with directory, file descriptor, path name, socket.
pub open spec fn entity_kind(a: Seq<char>) -> Option<EntityKind> {
    if entity_matches(FILE_WITH_DIRFD@, a, "file"@) {
        Some(EntityKind::DirfdFile)
    } else if entity_matches(FILE_DESCRIPTOR@, a, "file"@) {
        Some(EntityKind::FileDescriptor)
    } else if entity_matches(PATH_NAME@, a, "file"@) {
        Some(EntityKind::PathName)
    } else if entity_matches(SOCKET@, a, "network"@) {
        Some(EntityKind::Socket)
    } else {
        None
    }
}

/// The entity that a pattern of kind `k` names by the groups it captured:
/// `name`, and for a file with directory `dirfd`. A relative file name is
/// joined to its directory with `/`; a missing group is an error.
pub open spec fn entity_of_groups(k: EntityKind, name: Option<Seq<char>>, dirfd: Option<Seq<char>>) -> Result<
    (Seq<char>, NodeType),
    GraphError,
> {
    match name {
        None => Err(GraphError::MissingGroup),
        Some(f) => match k {
            EntityKind::DirfdFile => if f.len() > 0 && f[0] == '/' {
                Ok((f, NodeType::File))
            } else {
                match dirfd {
                    None => Err(GraphError::MissingGroup),
                    Some(d) => Ok((d + "/"@ + f, NodeType::File)),
                }
            },
            EntityKind::Socket => Ok((f, NodeType::Socket)),
            _ => Ok((f, NodeType::File)),
        },
    }
}

/// The entity named in an argument text: the one read by the first entity
/// pattern that matches it.
pub open spec fn entity_target(a: Seq<char>) -> Result<Option<(Seq<char>, NodeType)>, GraphError> {
    match entity_kind(a) {
        None => Ok(None),
        Some(k) => match entity_of_groups(
            k,
            group_of(entity_pattern(k), a, entity_group(k)),
            group_of(entity_pattern(k), a, "dirfd"@),
        ) {
            Err(e) => Err(e),
            Ok(t) => Ok(Some(t)),
        },
    }
}

/// The entity a record links its process to: the created process for a
/// process creation, otherwise the entity named in the argument text; none
/// for a record without argument text.
pub open spec fn graph_target(e: SystemCallView) -> Result<Option<(Seq<char>, NodeType)>, GraphError> {
    if is_process_creation(e) {
        match e.ret {
            None => Err(GraphError::MissingReturnValue),
            Some(r) => match created_process(r) {
                None => Err(GraphError::MissingProcessName),
                Some(t) => Ok(Some((t, NodeType::Process))),
            },
        }
    } else {
        match e.args_string {
            None => Ok(None),
            Some(a) => entity_target(a),
        }
    }
}

/// The nodes to write for target `t` and source `src`, in that order, each
/// only when the store does not hold it yet.
pub open spec fn new_nodes(store: Set<Seq<char>>, t: Seq<char>, ty: NodeType, src: Seq<char>) -> Seq<
    (Seq<char>, NodeType),
> {
    (if store.contains(t) {
        Seq::empty()
    } else {
        seq![(t, ty)]
    }) + (if store.insert(t).contains(src) {
        Seq::empty()
    } else {
        seq![(src, NodeType::Process)]
    })
}

/// `s` with the character `c` removed.
fn remove_char_from(s: &str, c: char) -> (r: String)
    ensures
        r@ == without_char(s@, c),
{
    let v = chars_of(s);
    let mut r = String::new();
    let mut k: usize = 0;
    while k < v.len()
        invariant
            0 <= k <= v@.len(),
            v@ == s@,
            r@ == without_char(v@.take(k as int), c),
        decreases v@.len() - k,
    {
        assert(v@.take(k + 1).drop_last() =~= v@.take(k as int));
        if v[k] != c {
            let one = s.substring_char(k, k + 1);
            assert(one@ =~= seq![v@[k as int]]);
            r.append(one);
            assert(r@ =~= without_char(v@.take(k as int), c).push(v@[k as int]));
        }
        k = k + 1;
    }
    assert(v@.take(v@.len() as int) =~= v@);
    r
}

/// The node of the process a creation returned.
fn created_process_node(ret: &String) -> (r: Option<String>)
    ensures
        opt_view(r) == created_process(ret@),
{
    let v = chars_of(ret.as_str());
    proof {
        lemma_index_of_from(v@, '<', 0);
    }
    match find_char(&v, '<', 0) {
        None => None,
        Some(a) => {
            let n = v.len();
            let mut node = ret.as_str().substring_char(0, a).to_owned();
            node.append("-");
            let tail = ret.as_str().substring_char(a + 1, n);
            let name = remove_char_from(tail, '>');
            node.append(name.as_str());
            assert(tail@ =~= ret@.skip(a + 1));
            assert(node@ =~= ret@.take(a as int) + "-"@ + without_char(ret@.skip(a + 1), '>'));
            Some(node)
        },
    }
}

/// Matches an entity pattern against `a`, reading the groups `groups`.
fn capture_entity(pattern: &Pattern, a: &str, groups: &Vec<&str>) -> (r: Option<Vec<Option<String>>>)
    requires
        groups@.len() > 0,
    ensures
        match r {
            None => !entity_matches(pattern.source(), a@, groups@[0]@),
            Some(v) => entity_matches(pattern.source(), a@, groups@[0]@) && v@.len() == groups@.len()
                && forall|i: int|
                0 <= i < groups@.len() ==> opt_view(#[trigger] v@[i]) == group_of(
                    pattern.source(),
                    a@,
                    groups@[i]@,
                ),
        },
{
    let r = capture_groups(pattern, a, groups);
    match &r {
        None => {
            assert(regex_capture(pattern.source(), a@, groups@[0]@) is None);
        },
        Some(v) => {
            assert(regex_capture(pattern.source(), a@, groups@[0]@) == Some(opt_view(v@[0])));
            assert forall|i: int| 0 <= i < groups@.len() implies opt_view(#[trigger] v@[i]) == group_of(
                pattern.source(),
                a@,
                groups@[i]@,
            ) by {
                assert(regex_capture(pattern.source(), a@, groups@[i]@) == Some(opt_view(v@[i])));
            }
        },
    }
    r
}

/// Builds the entity that a pattern of kind `kind` names by the groups it
/// captured: `name`, and for a file with directory `dirfd`.
pub fn entity_from_groups(kind: EntityKind, name: &Option<String>, dirfd: &Option<String>) -> (r: Result<
    (String, NodeType),
    GraphError,
>)
    ensures
        match entity_of_groups(kind, opt_view(*name), opt_view(*dirfd)) {
            Err(e) => r == Err::<(String, NodeType), GraphError>(e),
            Ok((t, ty)) => r matches Ok((rt, rty)) && rt@ == t && rty == ty,
        },
{
    let file = match name {
        Some(f) => f.clone(),
        None => {
            return Err(GraphError::MissingGroup);
        },
    };
    match kind {
        EntityKind::DirfdFile => {
            let fv = chars_of(file.as_str());
            if fv.len() > 0 && fv[0] == '/' {
                return Ok((file, NodeType::File));
            }
            let mut joined = match dirfd {
                Some(d) => d.clone(),
                None => {
                    return Err(GraphError::MissingGroup);
                },
            };
            joined.append("/");
            joined.append(file.as_str());
            Ok((joined, NodeType::File))
        },
        EntityKind::Socket => Ok((file, NodeType::Socket)),
        _ => Ok((file, NodeType::File)),
    }
}

/// The entity named in the argument text `a`.
fn find_entity(patterns: &EntityPatterns, a: &str) -> (r: Result<Option<(String, NodeType)>, GraphError>)
    ensures
        match entity_target(a@) {
            Err(e) => r == Err::<Option<(String, NodeType)>, GraphError>(e),
            Ok(None) => r matches Ok(None),
            Ok(Some((t, ty))) => r matches Ok(Some((rt, rty))) && rt@ == t && rty == ty,
        },
{
    proof {
        use_type_invariant(patterns);
    }
    let none: Option<String> = None;
    let dirfd_groups = vec!["file", "dirfd"];
    let file_groups = vec!["file"];
    let socket_groups = vec!["network"];
    let found = if let Some(v) = capture_entity(&patterns.files_dirfd, a, &dirfd_groups) {
        entity_from_groups(EntityKind::DirfdFile, &v[0], &v[1])
    } else if let Some(v) = capture_entity(&patterns.files, a, &file_groups) {
        entity_from_groups(EntityKind::FileDescriptor, &v[0], &none)
    } else if let Some(v) = capture_entity(&patterns.pathname, a, &file_groups) {
        entity_from_groups(EntityKind::PathName, &v[0], &none)
    } else if let Some(v) = capture_entity(&patterns.sockets, a, &socket_groups) {
        entity_from_groups(EntityKind::Socket, &v[0], &none)
    } else {
        return Ok(None);
    };
    match found {
        Ok(t) => Ok(Some(t)),
        Err(e) => Err(e),
    }
}

/// Whether a record is a successful process creation.
fn check_process_creation(event: &SystemCall) -> (b: bool)
    ensures
        b == is_process_creation(event@),
{
    let clone = "clone".to_owned();
    let clone3 = "clone3".to_owned();
    let fork = "fork".to_owned();
    let successful = "successful".to_owned();
    (event.name == clone || event.name == clone3 || event.name == fork) && event.successful == successful
}

/// The node of the process of a record.
fn source_node(event: &SystemCall) -> (r: String)
    ensures
        r@ == process_node(event.pid, event.procname@),
{
    let mut source = usize_to_decimal(event.pid);
    source.append("-");
    source.append(event.procname.as_str());
    source
}

/// Finds the nodes and the edge that record `event` adds to the graph: the
/// edge from the record's process to its target, and those of the two nodes
/// that `node_store` does not hold yet, target first; both nodes are added to
/// the store. A record without a target adds nothing.
pub fn collect_graph_entries(patterns: &EntityPatterns, event: &SystemCall, node_store: &mut NodeStore) -> (r:
    Result<GraphEntries, GraphError>)
    ensures
        match graph_target(event@) {
            Err(e) => r matches Err(re) && re == e && final(node_store)@ == old(node_store)@,
            Ok(None) => r matches Ok(g) && g.nodes@.len() == 0 && g.edge is None && final(node_store)@
                == old(node_store)@,
            Ok(Some((t, ty))) => {
                let src = process_node(event.pid, event.procname@);
                &&& r matches Ok(g)
                &&& nodes_view(g.nodes@) == new_nodes(old(node_store)@, t, ty, src)
                &&& edge_view(g.edge) == Some(
                    GraphEdgeView {
                        process: src,
                        target: t,
                        call_name: event.name@,
                        timestamp: event.timestamp,
                        successful: event.successful@ == "successful"@,
                    },
                )
                &&& final(node_store)@ == old(node_store)@.insert(t).insert(src)
            },
        },
{
    let target: String;
    let target_type: NodeType;
    if check_process_creation(event) {
        let ret = match &event.ret {
            Some(r) => r,
            None => {
                return Err(GraphError::MissingReturnValue);
            },
        };
        match created_process_node(ret) {
            Some(t) => {
                target = t;
                target_type = NodeType::Process;
            },
            None => {
                return Err(GraphError::MissingProcessName);
            },
        }
    } else {
        let a = match &event.args_string {
            Some(a) => a,
            None => {
                return Ok(GraphEntries { nodes: Vec::new(), edge: None });
            },
        };
        match find_entity(patterns, a.as_str()) {
            Err(e) => {
                return Err(e);
            },
            Ok(None) => {
                return Ok(GraphEntries { nodes: Vec::new(), edge: None });
            },
            Ok(Some((t, ty))) => {
                target = t;
                target_type = ty;
            },
        }
    }
    let mut nodes: Vec<GraphNode> = Vec::new();
    if node_store.check_node_store(&target) {
        nodes.push(GraphNode { name: target.clone(), node_type: target_type });
    }
    let source = source_node(event);
    if node_store.check_node_store(&source) {
        nodes.push(GraphNode { name: source.clone(), node_type: NodeType::Process });
    }
    let ghost t = target@;
    let ghost src = source@;
    assert(nodes_view(nodes@) =~= new_nodes(old(node_store)@, t, target_type, src));
    let successful = event.successful == "successful".to_owned();
    let edge = GraphEdge {
        process: source,
        target,
        call_name: event.name.clone(),
        timestamp: event.timestamp,
        successful,
    };
    Ok(GraphEntries { nodes, edge: Some(edge) })
}


/// The three node types are written with three different names.
pub proof fn lemma_node_type_names_distinct(a: NodeType, b: NodeType)
    ensures
        node_type_name(a) == node_type_name(b) <==> a == b,
{
    reveal_strlit("Process");
    reveal_strlit("File");
    reveal_strlit("Socket");
    assert("Process"@[0] != "File"@[0]);
    assert("Process"@[0] != "Socket"@[0]);
    assert("File"@[0] != "Socket"@[0]);
}

/// Every node is written once: the nodes found for a record are not in the
/// store before, are in it after, and are not repeated, so the nodes of later
/// records, found against the grown store, never repeat them.
pub proof fn lemma_nodes_written_once(store: Set<Seq<char>>, t: Seq<char>, ty: NodeType, src: Seq<char>)
    ensures
        ({
            let ns = new_nodes(store, t, ty, src);
            &&& forall|i: int| 0 <= i < ns.len() ==> !store.contains((#[trigger] ns[i]).0)
            &&& forall|i: int| 0 <= i < ns.len() ==> store.insert(t).insert(src).contains((#[trigger] ns[i]).0)
            &&& forall|i: int, j: int| 0 <= i < j < ns.len() ==> (#[trigger] ns[i]).0 != (#[trigger] ns[j]).0
        }),
{
}

/// Removing a character that `s` does not hold leaves `s` as it is.
proof fn lemma_without_absent_char(s: Seq<char>, c: char)
    requires
        forall|i: int| 0 <= i < s.len() ==> s[i] != c,
    ensures
        without_char(s, c) == s,
    decreases s.len(),
{
    if s.len() > 0 {
        lemma_without_absent_char(s.drop_last(), c);
        assert(s.drop_last().push(s.last()) =~= s);
    }
}

/// A successful `clone`, `clone3` or `fork` whose return text is a process id
/// `p`, `<`, a process name `nm` and `>` links its process to the created
/// process `p-nm`, a process node, whatever its arguments hold.
pub proof fn lemma_process_creation_target(e: SystemCallView, p: Seq<char>, nm: Seq<char>)
    requires
        e.name == seq!['c', 'l', 'o', 'n', 'e'] || e.name == seq!['c', 'l', 'o', 'n', 'e', '3'] || e.name
            == seq!['f', 'o', 'r', 'k'],
        e.successful == seq!['s', 'u', 'c', 'c', 'e', 's', 's', 'f', 'u', 'l'],
        e.ret == Some(p + seq!['<'] + nm + seq!['>']),
        forall|i: int| 0 <= i < p.len() ==> p[i] != '<',
        forall|i: int| 0 <= i < nm.len() ==> nm[i] != '>',
    ensures
        graph_target(e) == Ok::<Option<(Seq<char>, NodeType)>, GraphError>(
            Some((p + seq!['-'] + nm, NodeType::Process)),
        ),
{
    reveal_strlit("clone");
    reveal_strlit("clone3");
    reveal_strlit("fork");
    reveal_strlit("successful");
    reveal_strlit("-");
    assert("clone"@ =~= seq!['c', 'l', 'o', 'n', 'e']);
    assert("clone3"@ =~= seq!['c', 'l', 'o', 'n', 'e', '3']);
    assert("fork"@ =~= seq!['f', 'o', 'r', 'k']);
    assert("successful"@ =~= seq!['s', 'u', 'c', 'c', 'e', 's', 's', 'f', 'u', 'l']);
    assert("-"@ =~= seq!['-']);
    assert(is_process_creation(e));
    let r = p + seq!['<'] + nm + seq!['>'];
    lemma_index_of_from(r, '<', 0);
    assert(r[p.len() as int] == '<');
    match index_of(r, '<') {
        Some(a) => {
            if a < p.len() {
                assert(r[a] == p[a]);
            }
        },
        None => {},
    }
    assert(index_of(r, '<') == Some(p.len() as int));
    assert(r.take(p.len() as int) =~= p);
    let tail = r.skip(p.len() as int + 1);
    assert(tail =~= nm.push('>'));
    assert(nm.push('>').drop_last() =~= nm);
    lemma_without_absent_char(nm, '>');
    assert(without_char(tail, '>') == nm);
}

/// The entity named by captured groups: a file name that starts with `/`
/// stands as it is; a relative one found with its directory is joined to it
/// with `/`; a socket group names a socket and every other group a file; a
/// missing name group, or a missing directory for a relative name, is an
/// error.
pub proof fn lemma_entity_of_groups(k: EntityKind, name: Option<Seq<char>>, dirfd: Option<Seq<char>>)
    ensures
        name is None ==> entity_of_groups(k, name, dirfd) is Err,
        name matches Some(f) ==> match k {
            EntityKind::DirfdFile => if f.len() > 0 && f[0] == '/' {
                entity_of_groups(k, name, dirfd) == Ok::<(Seq<char>, NodeType), GraphError>(
                    (f, NodeType::File),
                )
            } else {
                match dirfd {
                    Some(d) => entity_of_groups(k, name, dirfd) == Ok::<(Seq<char>, NodeType), GraphError>(
                        (d + seq!['/'] + f, NodeType::File),
                    ),
                    None => entity_of_groups(k, name, dirfd) is Err,
                }
            },
            EntityKind::Socket => entity_of_groups(k, name, dirfd) == Ok::<(Seq<char>, NodeType), GraphError>(
                (f, NodeType::Socket),
            ),
            _ => entity_of_groups(k, name, dirfd) == Ok::<(Seq<char>, NodeType), GraphError>(
                (f, NodeType::File),
            ),
        },
{
    reveal_strlit("/");
    assert("/"@ =~= seq!['/']);
}

/// A record that creates no process and has no argument text links to
/// nothing.
pub proof fn lemma_no_argument_text_no_target(e: SystemCallView)
    requires
        !(e.name == seq!['c', 'l', 'o', 'n', 'e'] || e.name == seq!['c', 'l', 'o', 'n', 'e', '3'] || e.name
            == seq!['f', 'o', 'r', 'k']),
        e.args_string is None,
    ensures
        graph_target(e) == Ok::<Option<(Seq<char>, NodeType)>, GraphError>(None),
{
    reveal_strlit("clone");
    reveal_strlit("clone3");
    reveal_strlit("fork");
    assert("clone"@ =~= seq!['c', 'l', 'o', 'n', 'e']);
    assert("clone3"@ =~= seq!['c', 'l', 'o', 'n', 'e', '3']);
    assert("fork"@ =~= seq!['f', 'o', 'r', 'k']);
}

} // verus!
