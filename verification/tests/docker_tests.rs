use devbar::docker::{container_from_members, get_docker_status, parse_docker_ps};
use devbar::git::CommandOutput;

#[test]
fn docker_lines() {
    let out = [
        "{\"Names\":\"/web,alias\",\"Image\":\"nginx\",\"State\":\"running\",\"Status\":\"Up 2 hours\"}\n",
        "\n",
        "not json\n",
        "{\"Names\":\"\",\"Image\":\"x\"}\n",
        "{\"Image\":\"y\"}\n",
        "{\"Names\":\"db\",\"State\":7}\n",
        "  {\"Names\":\"//cache\",\"Image\":\"redis\",\"State\":\"exited\",\"Status\":\"Exited (0)\"}  \n",
    ]
    .join("");
    let c = parse_docker_ps(&out);
    assert_eq!(c.len(), 3);
    assert_eq!(c[0].name, "web");
    assert_eq!(c[0].image, "nginx");
    assert_eq!(c[0].state, "running");
    assert_eq!(c[0].status, "Up 2 hours");
    assert_eq!(c[1].name, "db");
    assert_eq!(c[1].image, "");
    assert_eq!(c[1].state, "unknown");
    assert_eq!(c[1].status, "");
    assert_eq!(c[2].name, "cache");
    assert_eq!(c[2].state, "exited");
}

#[test]
fn docker_availability() {
    let none = get_docker_status(None);
    assert!(!none.available);
    assert!(none.containers.is_empty());
    let failed = CommandOutput { success: false, stdout: "{\"Names\":\"a\"}".to_string() };
    let f = get_docker_status(Some(&failed));
    assert!(!f.available);
    assert!(f.containers.is_empty());
    let ok = CommandOutput { success: true, stdout: "{\"Names\":\"a\"}\n".to_string() };
    let s = get_docker_status(Some(&ok));
    assert!(s.available);
    assert_eq!(s.containers.len(), 1);
    assert_eq!(s.containers[0].name, "a");
    let empty = CommandOutput { success: true, stdout: String::new() };
    let e = get_docker_status(Some(&empty));
    assert!(e.available);
    assert!(e.containers.is_empty());
}

#[test]
fn containers_from_read_members() {
    let s = |x: &str| Some(Some(x.to_string()));
    let c = container_from_members(s("/api,/api-alias"), s("node:20"), s("restarting"), s("Restarting (1)")).unwrap();
    assert_eq!(c.name, "api");
    assert_eq!(c.image, "node:20");
    assert_eq!(c.state, "restarting");
    assert_eq!(c.status, "Restarting (1)");
    let d = container_from_members(s("db"), Some(None), Some(None), None).unwrap();
    assert_eq!(d.image, "");
    assert_eq!(d.state, "unknown");
    assert_eq!(d.status, "");
    assert!(container_from_members(None, s("x"), s("y"), s("z")).is_none());
    assert!(container_from_members(Some(None), s("x"), None, None).is_none());
    assert!(container_from_members(s("///,b"), None, None, None).is_none());
}
