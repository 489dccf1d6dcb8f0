//! Firewall rule scripts for the nodes of a network graph, one per node's
//! network namespace.
use vstd::prelude::*;
use vstd::string::*;

verus! {

/// The firewall posture of one node.
#[derive(Debug)]
pub enum NodeLinks {
    /// Open: everything in and out is accepted.
    Full,
    /// Closed but for the bridge address.
    Isolate,
    /// Open, but packets between this node and each of these peers are
    /// dropped on input.
    DropSome(Vec<String>),
}

/// Nodes by IP address, each with its posture.
pub struct Graph {
    pub nodes: Vec<(String, NodeLinks)>,
}

/// What to do for one node: load `script` into the firewall inside the
/// network namespace at `namespace`.
#[derive(Debug)]
pub struct NodeAction {
    pub ip: String,
    pub namespace: String,
    pub script: String,
}

/// The rule dropping input from `ip` to `peer`.
pub open spec fn drop_rule(ip: Seq<char>, peer: Seq<char>) -> Seq<char> {
    "-A INPUT -s "@ + ip + "/32 -d "@ + peer + "/32 -j DROP"@
}

/// The drop rules for each of `peers`, in order.
pub open spec fn drop_rules(ip: Seq<char>, peers: Seq<String>) -> Seq<Seq<char>> {
    peers.map_values(|p: String| drop_rule(ip, p@))
}

/// The lines of the rule script for node `ip`: a filter table whose
/// FORWARD chain always drops, with the chains' defaults and the extra
/// rules that the posture asks for, ended by a commit.
pub open spec fn rules_spec(ip: Seq<char>, node: NodeLinks) -> Seq<Seq<char>> {
    match node {
        NodeLinks::Full => seq![
            "*filter"@,
            ":INPUT ACCEPT [0:0]"@,
            ":FORWARD DROP [0:0]"@,
            ":OUTPUT ACCEPT [0:0]"@,
            "COMMIT"@,
        ],
        NodeLinks::Isolate => seq![
            "*filter"@,
            ":INPUT DROP [0:0]"@,
            ":FORWARD DROP [0:0]"@,
            ":OUTPUT DROP [0:0]"@,
            "-A INPUT -s 172.18.0.254/32 -j ACCEPT"@,
            "-A OUTPUT -d 172.18.0.254/32 -j ACCEPT"@,
            "COMMIT"@,
        ],
        NodeLinks::DropSome(peers) => seq![
            "*filter"@,
            ":INPUT ACCEPT [0:0]"@,
            ":FORWARD DROP [0:0]"@,
            ":OUTPUT ACCEPT [0:0]"@,
        ] + drop_rules(ip, peers@) + seq!["COMMIT"@],
    }
}

/// Lines joined into a script, each ended by a newline.
pub open spec fn script_text(lines: Seq<Seq<char>>) -> Seq<char>
    decreases lines.len(),
{
    if lines.len() == 0 {
        Seq::empty()
    } else {
        script_text(lines.drop_last()) + lines.last() + "\n"@
    }
}

/// The path of the network namespace of node `ip`.
pub open spec fn namespace_path(ip: Seq<char>) -> Seq<char> {
    "/tmp/vagga/namespaces/net."@ + ip
}

fn push_line(v: &mut Vec<String>, line: &str)
    ensures
        final(v)@.map_values(|s: String| s@) == old(v)@.map_values(|s: String| s@).push(line@),
{
    v.push(String::from_str(line));
    assert(final(v)@.map_values(|s: String| s@) =~= old(v)@.map_values(|s: String| s@).push(line@));
}

/// The lines of the rule script for node `ip` with posture `node`.
pub fn node_rules(ip: &String, node: &NodeLinks) -> (r: Vec<String>)
    ensures
        r@.map_values(|s: String| s@) == rules_spec(ip@, *node),
{
    let mut r: Vec<String> = Vec::new();
    push_line(&mut r, "*filter");
    match node {
        NodeLinks::Full => {
            push_line(&mut r, ":INPUT ACCEPT [0:0]");
            push_line(&mut r, ":FORWARD DROP [0:0]");
            push_line(&mut r, ":OUTPUT ACCEPT [0:0]");
        },
        NodeLinks::Isolate => {
            push_line(&mut r, ":INPUT DROP [0:0]");
            push_line(&mut r, ":FORWARD DROP [0:0]");
            push_line(&mut r, ":OUTPUT DROP [0:0]");
            push_line(&mut r, "-A INPUT -s 172.18.0.254/32 -j ACCEPT");
            push_line(&mut r, "-A OUTPUT -d 172.18.0.254/32 -j ACCEPT");
        },
        NodeLinks::DropSome(peers) => {
            push_line(&mut r, ":INPUT ACCEPT [0:0]");
            push_line(&mut r, ":FORWARD DROP [0:0]");
            push_line(&mut r, ":OUTPUT ACCEPT [0:0]");
            let ghost head = r@.map_values(|s: String| s@);
            let mut i: usize = 0;
            while i < peers.len()
                invariant
                    i <= peers@.len(),
                    r@.map_values(|s: String| s@) == head + drop_rules(ip@, peers@.subrange(0, i as int)),
                decreases peers@.len() - i,
            {
                let mut line = String::from_str("-A INPUT -s ");
                line.append(ip.as_str());
                line.append("/32 -d ");
                line.append(peers[i].as_str());
                line.append("/32 -j DROP");
                push_line(&mut r, line.as_str());
                assert(drop_rules(ip@, peers@.subrange(0, i + 1)) =~= drop_rules(
                    ip@,
                    peers@.subrange(0, i as int),
                ).push(drop_rule(ip@, peers@[i as int]@)));
                i = i + 1;
            }
            assert(peers@.subrange(0, peers@.len() as int) =~= peers@);
        },
    }
    push_line(&mut r, "COMMIT");
    assert(r@.map_values(|s: String| s@) =~= rules_spec(ip@, *node));
    r
}

/// The rule script for node `ip` with posture `node`, as the rule loader
/// reads it.
pub fn node_script(ip: &String, node: &NodeLinks) -> (r: String)
    ensures
        r@ == script_text(rules_spec(ip@, *node)),
{
    let lines = node_rules(ip, node);
    let ghost lv = lines@.map_values(|s: String| s@);
    let mut r = String::new();
    let mut i: usize = 0;
    while i < lines.len()
        invariant
            i <= lines@.len(),
            lv == lines@.map_values(|s: String| s@),
            r@ == script_text(lv.subrange(0, i as int)),
        decreases lines@.len() - i,
    {
        r.append(lines[i].as_str());
        r.append("\n");
        assert(lv.subrange(0, i + 1).drop_last() =~= lv.subrange(0, i as int));
        i = i + 1;
    }
    assert(lv.subrange(0, lv.len() as int) =~= lv);
    r
}

/// What applying `graph` takes: for each node in turn, its namespace and
/// its rule script. The caller loads each script in order and stops at the
/// first failure; nodes already done stay configured.
pub fn apply_graph(graph: &Graph) -> (r: Vec<NodeAction>)
    ensures
        r@.len() == graph.nodes@.len(),
        forall|i: int|
            0 <= i < r@.len() ==> {
                &&& (#[trigger] r@[i]).ip@ == graph.nodes@[i].0@
                &&& r@[i].namespace@ == namespace_path(graph.nodes@[i].0@)
                &&& r@[i].script@ == script_text(rules_spec(graph.nodes@[i].0@, graph.nodes@[i].1))
            },
{
    let mut r: Vec<NodeAction> = Vec::new();
    let mut i: usize = 0;
    while i < graph.nodes.len()
        invariant
            i <= graph.nodes@.len(),
            r@.len() == i,
            forall|j: int|
                0 <= j < i ==> {
                    &&& (#[trigger] r@[j]).ip@ == graph.nodes@[j].0@
                    &&& r@[j].namespace@ == namespace_path(graph.nodes@[j].0@)
                    &&& r@[j].script@ == script_text(rules_spec(graph.nodes@[j].0@, graph.nodes@[j].1))
                },
        decreases graph.nodes@.len() - i,
    {
        let ip = &graph.nodes[i].0;
        let mut ns = String::from_str("/tmp/vagga/namespaces/net.");
        ns.append(ip.as_str());
        let script = node_script(ip, &graph.nodes[i].1);
        r.push(NodeAction { ip: ip.clone(), namespace: ns, script: script });
        i = i + 1;
    }
    r
}

/// Every script forbids forwarding and has the expected shape: the filter
/// table header, three chain defaults, then exactly the posture's extra
/// rules (none for `Full`, the two bridge exceptions for `Isolate`, one
/// drop rule per peer for `DropSome`), then the commit.
pub proof fn lemma_rules_shape(ip: Seq<char>, node: NodeLinks)
    ensures
        rules_spec(ip, node)[0] == "*filter"@,
        rules_spec(ip, node)[2] == ":FORWARD DROP [0:0]"@,
        rules_spec(ip, node).last() == "COMMIT"@,
        match node {
            NodeLinks::Full => rules_spec(ip, node).len() == 5,
            NodeLinks::Isolate => rules_spec(ip, node).len() == 7,
            NodeLinks::DropSome(peers) => rules_spec(ip, node).len() == 5 + peers@.len() && forall|k: int|
                0 <= k < peers@.len() ==> #[trigger] rules_spec(ip, node)[4 + k] == drop_rule(ip, peers@[k]@),
        },
{
}

} // verus!
