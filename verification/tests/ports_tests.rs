use devbar::ports::{
    get_port_status, get_port_status_for, parse_listening_ports, parse_port, parse_tasklist_name, watched_ports,
    watched_ports_config, ListenTool, ListeningPort, DEFAULT_PORTS,
};

const NETSTAT: &str = "\r\nActive Connections\r\n\r\n  Proto  Local Address          Foreign Address        State           PID\r\n  TCP    0.0.0.0:135            0.0.0.0:0              LISTENING       1000\r\n  TCP    0.0.0.0:3000           0.0.0.0:0              LISTENING       4242\r\n  TCP    [::]:3000              [::]:0                 LISTENING       5555\r\n  TCP    127.0.0.1:8080         127.0.0.1:50000        ESTABLISHED     77\r\n  TCP    [::1]:5173             [::]:0                 LISTENING       9001\r\n";

#[test]
fn test_get_port_status_returns_all_watched() {
    let ports = get_port_status_for(&DEFAULT_PORTS, &Vec::new());
    assert_eq!(ports.len(), DEFAULT_PORTS.len());
    println!("PORT STATUS:");
    for p in &ports {
        println!(
            "  :{} \u{2014} {} \u{2014} {:?} (pid {:?})",
            p.port,
            if p.in_use { "IN USE" } else { "free" },
            p.process_name,
            p.pid,
        );
    }
}

#[test]
fn test_custom_ports() {
    let ports = get_port_status_for(&[80, 443, 22], &Vec::new());
    assert_eq!(ports.len(), 3);
}

#[test]
fn ports_parse_like_u16() {
    assert_eq!(parse_port("0.0.0.0:3000"), Some(3000));
    assert_eq!(parse_port("[::]:5173"), Some(5173));
    assert_eq!(parse_port("[::1]:+80"), Some(80));
    assert_eq!(parse_port("host:65535"), Some(65535));
    assert_eq!(parse_port("host:65536"), None);
    assert_eq!(parse_port("host:"), None);
    assert_eq!(parse_port("host:+"), None);
    assert_eq!(parse_port("host:-1"), None);
    assert_eq!(parse_port("3000"), None);
    assert_eq!(parse_port("a:1:0080"), Some(80));
}

#[test]
fn listening_ports_from_netstat() {
    let found = parse_listening_ports(NETSTAT, &DEFAULT_PORTS, &ListenTool::Netstat);
    assert_eq!(found, vec![(3000, 4242), (5173, 9001)]);
    let none = parse_listening_ports(NETSTAT, &[135u16][..0], &ListenTool::Netstat);
    assert!(none.is_empty());
    let all = parse_listening_ports(NETSTAT, &[135, 8080], &ListenTool::Netstat);
    assert_eq!(all, vec![(135, 1000)]);
}

#[test]
fn report_marks_listening_ports() {
    let listening = vec![ListeningPort { port: 5173, pid: 9001, process_name: "node.exe".to_string() }];
    let ports = get_port_status(None, &listening);
    assert_eq!(ports.len(), 8);
    let vite = ports.iter().find(|p| p.port == 5173).unwrap();
    assert!(vite.in_use);
    assert_eq!(vite.pid, Some(9001));
    assert_eq!(vite.process_name.as_deref(), Some("node.exe"));
    let order: Vec<u16> = ports.iter().map(|p| p.port).collect();
    assert_eq!(order, DEFAULT_PORTS.to_vec());
    assert_eq!(ports.iter().filter(|p| p.in_use).count(), 1);
    let free = &ports[0];
    assert!(!free.in_use && free.pid.is_none() && free.process_name.is_none());
}

#[test]
fn tasklist_names() {
    assert_eq!(parse_tasklist_name("\"node.exe\",\"4242\",\"Console\",\"1\",\"52,000 K\"\r\n").as_deref(), Some("node.exe"));
    assert_eq!(parse_tasklist_name("INFO: No tasks are running which match the specified criteria.\r\n"), None);
    assert_eq!(parse_tasklist_name("\n\"\"\n  \"code.exe\"\n"), Some("code.exe".to_string()));
    assert_eq!(parse_tasklist_name(""), None);
}

const LSOF: &str = "COMMAND   PID USER   FD   TYPE             DEVICE SIZE/OFF NODE NAME\nnode    12345 me   23u  IPv4 0x1234567890abcdef      0t0  TCP *:3000 (LISTEN)\nnode    12345 me   24u  IPv6 0x1234567890abcdee      0t0  TCP [::1]:3000 (LISTEN)\nPython    777 me    5u  IPv4 0x1234567890abcdea      0t0  TCP 127.0.0.1:8000 (LISTEN)\nrapportd  400 me    9u  IPv4 0x1234567890abcde9      0t0  TCP *:49152 (LISTEN)\n";

const SS: &str = "State  Recv-Q Send-Q Local Address:Port Peer Address:Port Process\nLISTEN 0      511          0.0.0.0:5173      0.0.0.0:*    users:((\"node\",pid=4321,fd=21))\nLISTEN 0      4096   127.0.0.53%lo:53        0.0.0.0:*\nLISTEN 0      128               [::]:8080         [::]:*    users:((\"java\",pid=99,fd=7),(\"java\",pid=100,fd=7))\nLISTEN 0      128          0.0.0.0:3001      0.0.0.0:*\n";

#[test]
fn listening_ports_from_lsof_and_ss() {
    assert_eq!(parse_listening_ports(LSOF, &DEFAULT_PORTS, &ListenTool::Lsof), vec![(3000, 12345), (8000, 777)]);
    // a line without a process column names no pid and is not reported
    assert_eq!(parse_listening_ports(SS, &DEFAULT_PORTS, &ListenTool::Ss), vec![(5173, 4321), (8080, 99)]);
    assert!(parse_listening_ports(LSOF, &DEFAULT_PORTS, &ListenTool::Ss).is_empty());
    assert!(parse_listening_ports(SS, &DEFAULT_PORTS, &ListenTool::Netstat).is_empty());
}

#[test]
fn saved_port_lists() {
    assert_eq!(watched_ports(None), DEFAULT_PORTS.to_vec());
    assert_eq!(watched_ports(Some("not json")), DEFAULT_PORTS.to_vec());
    assert_eq!(watched_ports(Some("[8081, 22]")), vec![8081, 22]);
    assert_eq!(watched_ports(Some("[70000]")), DEFAULT_PORTS.to_vec());
    let text = watched_ports_config(&vec![8081, 3000]);
    assert_eq!(watched_ports(Some(&text)), vec![8081, 3000]);
    let report = get_port_status(Some("[8081]"), &vec![ListeningPort { port: 8081, pid: 5, process_name: "x".to_string() }]);
    assert_eq!(report.len(), 1);
    assert_eq!(report[0].port, 8081);
    assert!(report[0].in_use);
}
