use strace_converter::graph_generator::{
    collect_graph_entries, entity_from_groups, EntityKind, EntityPatterns, GraphEdge, GraphError, GraphNode,
    NodeStore, NodeType,
};
use strace_converter::output_format::FormatType;
use strace_converter::syscall_parser::{parse, Config, SyscallPatterns, SystemCall};

fn read(line: &str) -> SystemCall {
    let patterns = SyscallPatterns::new().unwrap();
    let config = Config { arg_parse_val: false };
    let mut resumed = 0;
    let mut unfinished = 0;
    parse(&patterns, &config, line, &mut resumed, &mut unfinished).unwrap()
}

#[test]
fn node_type_names() {
    assert_eq!(NodeType::Process.as_str(), "Process");
    assert_eq!(NodeType::File.as_str(), "File");
    assert_eq!(NodeType::Socket.as_str(), "Socket");
}

#[test]
fn process_creation_links_parent_and_child() {
    let patterns = EntityPatterns::new().unwrap();
    let mut store = NodeStore::new();
    let c = read("84321<curl> 10.0 clone(child_stack=NULL, flags=CLONE_VM) = 84399<curl> <0.000100>");
    let g = collect_graph_entries(&patterns, &c, &mut store).unwrap();
    assert_eq!(g.nodes.len(), 2);
    assert_eq!(g.nodes[0].name, "84399-curl");
    assert_eq!(g.nodes[0].node_type, NodeType::Process);
    assert_eq!(g.nodes[1].name, "84321-curl");
    let e = g.edge.unwrap();
    assert_eq!(e.process, "84321-curl");
    assert_eq!(e.target, "84399-curl");
    assert_eq!(e.call_name, "clone");
    assert_eq!(e.timestamp, 10_000_000);
    assert!(e.successful);
    // the same nodes are not written twice
    let g = collect_graph_entries(&patterns, &c, &mut store).unwrap();
    assert_eq!(g.nodes.len(), 0);
    assert!(g.edge.is_some());
    assert!(store.contains(&"84399-curl".to_string()));
}

#[test]
fn relative_file_is_joined_to_its_directory() {
    let patterns = EntityPatterns::new().unwrap();
    let mut store = NodeStore::new();
    let c = read(
        "9<cat> 1.0 openat(dirfd=AT_FDCWD</home/user>, pathname=\"file.txt\", flags=O_RDONLY) = 3</home/user/file.txt> <0.000010>",
    );
    let g = collect_graph_entries(&patterns, &c, &mut store).unwrap();
    assert_eq!(g.nodes[0].name, "/home/user/file.txt");
    assert_eq!(g.nodes[0].node_type, NodeType::File);
    assert_eq!(g.nodes[1].name, "9-cat");
    assert_eq!(g.edge.unwrap().target, "/home/user/file.txt");

    let c = read(
        "9<cat> 1.0 openat(dirfd=AT_FDCWD</home/user>, pathname=\"/etc/passwd\", flags=O_RDONLY) = 3</etc/passwd> <0.000010>",
    );
    let g = collect_graph_entries(&patterns, &c, &mut store).unwrap();
    assert_eq!(g.nodes.len(), 1);
    assert_eq!(g.nodes[0].name, "/etc/passwd");
}

#[test]
fn descriptors_paths_and_sockets() {
    let patterns = EntityPatterns::new().unwrap();
    let mut store = NodeStore::new();
    let c = read("9<cat> 1.0 read(3</etc/hosts>, \"x\", 1) = 1 <0.000001>");
    let g = collect_graph_entries(&patterns, &c, &mut store).unwrap();
    assert_eq!(g.nodes[0].name, "/etc/hosts");

    let c = read("9<sh> 1.0 execve(pathname=\"/usr/bin/curl\", argv=[\"curl\"], envp=0x1) = 0 <0.000372>");
    let g = collect_graph_entries(&patterns, &c, &mut store).unwrap();
    assert_eq!(g.nodes[0].name, "/usr/bin/curl");
    assert_eq!(g.nodes[1].name, "9-sh");

    let c = read("9<cat> 1.0 connect(3<TCP:[1.2.3.4:5->6.7.8.9:80]>, {sa_family=AF_INET}, 16) = 0 <0.000020>");
    let g = collect_graph_entries(&patterns, &c, &mut store).unwrap();
    assert_eq!(g.nodes[0].name, "TCP:[1.2.3.4:5->6.7.8.9:80]");
    assert_eq!(g.nodes[0].node_type, NodeType::Socket);
    assert_eq!(g.nodes.len(), 1);
    let e = g.edge.unwrap();
    assert_eq!(e.process, "9-cat");
    assert!(e.successful);
}

#[test]
fn records_without_entities_add_nothing() {
    let patterns = EntityPatterns::new().unwrap();
    let mut store = NodeStore::new();
    let c = read("9<cat> 1.0 getpid() = 9 <0.000001>");
    let g = collect_graph_entries(&patterns, &c, &mut store).unwrap();
    assert!(g.nodes.is_empty());
    assert!(g.edge.is_none());
    let s = read("9<cat> 1.0 +++ exited with 0 +++");
    let g = collect_graph_entries(&patterns, &s, &mut store).unwrap();
    assert!(g.edge.is_none());
    assert!(!store.contains(&"9-cat".to_string()));
}

#[test]
fn failed_calls_give_unsuccessful_edges() {
    let patterns = EntityPatterns::new().unwrap();
    let mut store = NodeStore::new();
    let c = read("9<cat> 1.0 openat(AT_FDCWD, pathname=\"/nope\", O_RDONLY) = -1 ENOENT (No such file or directory) <0.000004>");
    let g = collect_graph_entries(&patterns, &c, &mut store).unwrap();
    assert_eq!(g.nodes[0].name, "/nope");
    assert!(!g.edge.unwrap().successful);
}

#[test]
fn process_creation_without_name_is_an_error() {
    let patterns = EntityPatterns::new().unwrap();
    let mut store = NodeStore::new();
    let c = read("1<a> 1.0 fork() = 42 <0.000100>");
    assert_eq!(collect_graph_entries(&patterns, &c, &mut store).unwrap_err(), GraphError::MissingProcessName);
    let mut c = c;
    c.ret = None;
    c.successful = "successful".to_string();
    assert_eq!(collect_graph_entries(&patterns, &c, &mut store).unwrap_err(), GraphError::MissingReturnValue);
}

#[test]
fn node_store_checks() {
    let mut store = NodeStore::new();
    assert!(store.check_node_store(&"a".to_string()));
    assert!(!store.check_node_store(&"a".to_string()));
    assert!(store.check_node_store(&"b".to_string()));
}

#[test]
fn format_names() {
    assert_eq!(FormatType::from_arg("json"), FormatType::Json);
    assert_eq!(FormatType::from_arg("JSON"), FormatType::Json);
    assert_eq!(FormatType::from_arg("Tef"), FormatType::Tef);
    assert_eq!(FormatType::from_arg("csv"), FormatType::Csv);
    assert_eq!(FormatType::from_arg("TEF-csv"), FormatType::TefCsv);
    assert_eq!(FormatType::from_arg("csv-tef"), FormatType::TefCsv);
    assert_eq!(FormatType::from_arg("CSV-TEF"), FormatType::NoFormat);
    assert_eq!(FormatType::from_arg("xml"), FormatType::NoFormat);
    assert_eq!(FormatType::Json.writer_count(), 1);
    assert_eq!(FormatType::Tef.writer_count(), 1);
    assert_eq!(FormatType::Csv.writer_count(), 2);
    assert_eq!(FormatType::TefCsv.writer_count(), 3);
    assert_eq!(FormatType::NoFormat.writer_count(), 0);
}

#[test]
fn entities_from_captured_groups() {
    let s = |t: &str| Some(t.to_string());
    assert_eq!(
        entity_from_groups(EntityKind::DirfdFile, &s("etc/passwd"), &s("/root")),
        Ok(("/root/etc/passwd".to_string(), NodeType::File))
    );
    assert_eq!(
        entity_from_groups(EntityKind::DirfdFile, &s("/etc/passwd"), &None),
        Ok(("/etc/passwd".to_string(), NodeType::File))
    );
    assert_eq!(entity_from_groups(EntityKind::DirfdFile, &s("x"), &None), Err(GraphError::MissingGroup));
    assert_eq!(entity_from_groups(EntityKind::PathName, &None, &None), Err(GraphError::MissingGroup));
    assert_eq!(
        entity_from_groups(EntityKind::FileDescriptor, &s("/dev/null"), &s("/ignored")),
        Ok(("/dev/null".to_string(), NodeType::File))
    );
    assert_eq!(
        entity_from_groups(EntityKind::Socket, &s("TCP:[1.2.3.4:80]"), &None),
        Ok(("TCP:[1.2.3.4:80]".to_string(), NodeType::Socket))
    );
}

#[test]
fn output_files_per_format() {
    let files = |f: FormatType| {
        f.output_files("out")
            .map(|v| v.into_iter().map(|o| (o.path, o.first_line)).collect::<Vec<_>>())
    };
    let s = |a: &str, b: &str| (a.to_string(), b.to_string());
    assert_eq!(files(FormatType::Json), Some(vec![s("out.json", "[")]));
    assert_eq!(files(FormatType::Tef), Some(vec![s("out.tef", "[")]));
    assert_eq!(
        files(FormatType::Csv),
        Some(vec![
            s("out-nodes.csv", "name,type"),
            s("out-edges.csv", "from_id,to_id,call_name,timestamp,success_flag")
        ])
    );
    assert_eq!(
        files(FormatType::TefCsv),
        Some(vec![
            s("out.tef", "["),
            s("out-nodes.csv", "name,type"),
            s("out-edges.csv", "from_id,to_id,call_name,timestamp,success_flag")
        ])
    );
    assert_eq!(files(FormatType::NoFormat), None);
    assert_eq!(FormatType::Csv.graph_files(), Some((0, 1)));
    assert_eq!(FormatType::TefCsv.graph_files(), Some((1, 2)));
    assert_eq!(FormatType::Json.graph_files(), None);
    assert_eq!(FormatType::Tef.graph_files(), None);
    assert_eq!(FormatType::NoFormat.graph_files(), None);
}

#[test]
fn csv_lines_of_nodes_and_edges() {
    let n = GraphNode { name: "84321-curl".to_string(), node_type: NodeType::Process };
    assert_eq!(n.csv_line(), "\"84321-curl\",\"Process\"");
    let n = GraphNode { name: "/etc/hosts".to_string(), node_type: NodeType::File };
    assert_eq!(n.csv_line(), "\"/etc/hosts\",\"File\"");
    let e = GraphEdge {
        process: "1-sh".to_string(),
        target: "/tmp/x".to_string(),
        call_name: "openat".to_string(),
        timestamp: 18446744073709551615,
        successful: true,
    };
    assert_eq!(e.csv_line(), "\"1-sh\",\"/tmp/x\",\"openat\",\"18446744073709551615\",\"true\"");
    let e = GraphEdge { timestamp: 0, successful: false, ..e };
    assert_eq!(e.csv_line(), "\"1-sh\",\"/tmp/x\",\"openat\",\"0\",\"false\"");
}

#[test]
fn node_store_holds_each_name_once() {
    let mut store = NodeStore::new();
    let a = "a".to_string();
    assert!(store.check_node_store(&a));
    assert!(!store.check_node_store(&a));
    assert!(store.contains(&a));
    assert!(store.check_node_store(&"b".to_string()));
    assert!(!store.check_node_store(&"b".to_string()));
}
