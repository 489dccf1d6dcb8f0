use vagga_core::network::{apply_graph, node_rules, node_script, Graph, NodeLinks};

fn s(x: &str) -> String {
    x.to_string()
}

#[test]
fn full_node_rules() {
    let r = node_rules(&s("172.18.0.1"), &NodeLinks::Full);
    assert_eq!(
        r,
        vec!["*filter", ":INPUT ACCEPT [0:0]", ":FORWARD DROP [0:0]", ":OUTPUT ACCEPT [0:0]", "COMMIT"]
    );
}

#[test]
fn isolated_node_rules() {
    let r = node_rules(&s("172.18.0.1"), &NodeLinks::Isolate);
    assert_eq!(
        r,
        vec![
            "*filter",
            ":INPUT DROP [0:0]",
            ":FORWARD DROP [0:0]",
            ":OUTPUT DROP [0:0]",
            "-A INPUT -s 172.18.0.254/32 -j ACCEPT",
            "-A OUTPUT -d 172.18.0.254/32 -j ACCEPT",
            "COMMIT",
        ]
    );
}

#[test]
fn drop_some_node_rules() {
    let r = node_rules(
        &s("172.18.0.1"),
        &NodeLinks::DropSome(vec![s("172.18.0.2"), s("172.18.0.3")]),
    );
    assert_eq!(
        r,
        vec![
            "*filter",
            ":INPUT ACCEPT [0:0]",
            ":FORWARD DROP [0:0]",
            ":OUTPUT ACCEPT [0:0]",
            "-A INPUT -s 172.18.0.1/32 -d 172.18.0.2/32 -j DROP",
            "-A INPUT -s 172.18.0.1/32 -d 172.18.0.3/32 -j DROP",
            "COMMIT",
        ]
    );
}

#[test]
fn script_and_graph_plan() {
    assert_eq!(
        node_script(&s("10.0.0.1"), &NodeLinks::Full),
        "*filter\n:INPUT ACCEPT [0:0]\n:FORWARD DROP [0:0]\n:OUTPUT ACCEPT [0:0]\nCOMMIT\n"
    );
    let g = Graph {
        nodes: vec![(s("10.0.0.1"), NodeLinks::Full), (s("10.0.0.2"), NodeLinks::Isolate)],
    };
    let plan = apply_graph(&g);
    assert_eq!(plan.len(), 2);
    assert_eq!(plan[0].ip, "10.0.0.1");
    assert_eq!(plan[0].namespace, "/tmp/vagga/namespaces/net.10.0.0.1");
    assert_eq!(plan[1].namespace, "/tmp/vagga/namespaces/net.10.0.0.2");
    assert_eq!(plan[1].script, node_script(&s("10.0.0.2"), &NodeLinks::Isolate));
}
