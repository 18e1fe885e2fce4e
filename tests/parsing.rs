use crossport::envfile::{update_env_content, EnvError};
use crossport::containers::parse_container_ports;
use crossport::listeners::{parse_field_output, parse_table_output};

#[test]
fn field_output_pairs_pid_and_port() {
    let out = parse_field_output(b"p1234\nn*:9090\n");
    assert_eq!(out, vec![(1234u32, 9090u16)]);
}

#[test]
fn field_output_pid_without_port_line_yields_nothing() {
    assert_eq!(parse_field_output(b"p1234\n"), Vec::<(u32, u16)>::new());
    assert_eq!(parse_field_output(b"p1234\nnlocalhost\n"), Vec::<(u32, u16)>::new());
    assert_eq!(parse_field_output(b"p77\np1234\nn*:9090"), vec![(1234u32, 9090u16)]);
}

#[test]
fn field_output_keeps_duplicates_and_order() {
    let text = b"p610\nn*:3000\nn[::1]:3000\np620\nn127.0.0.1:8080\r\n";
    assert_eq!(
        parse_field_output(text),
        vec![(610u32, 3000u16), (610, 3000), (620, 8080)]
    );
}

#[test]
fn field_output_malformed_pid_clears_context() {
    assert_eq!(parse_field_output(b"p12x\nn*:80\n"), Vec::<(u32, u16)>::new());
    assert_eq!(parse_field_output(b"p55\nn*:99999\n"), Vec::<(u32, u16)>::new());
    assert_eq!(parse_field_output(b""), Vec::<(u32, u16)>::new());
}

#[test]
fn table_output_reads_listening_rows() {
    let text = b"Active Connections\r\n\r\n  Proto  Local Address          Foreign Address        State           PID\r\n  TCP    0.0.0.0:8088           0.0.0.0:0              LISTENING       31715\r\n  TCP    127.0.0.1:5000         127.0.0.1:6000         ESTABLISHED     42\r\n  TCP    [::]:445               [::]:0                 LISTENING       4\r\n";
    assert_eq!(parse_table_output(text), vec![(31715u32, 8088u16), (4, 445)]);
}

#[test]
fn table_output_needs_listening_in_the_state_column() {
    let text = b"TCP a:1 LISTENING b 7
TCP 0.0.0.0:80 0.0.0.0:0 LISTENINGX 5
TCP 0.0.0.0:81 0.0.0.0:0 LISTENING 6
";
    assert_eq!(parse_table_output(text), vec![(6u32, 81u16)]);
}

#[test]
fn table_output_skips_malformed_rows() {
    let text = b"TCP 0.0.0.0:abc 0.0.0.0:0 LISTENING 12\nTCP 0.0.0.0:80 LISTENING 12\nTCP 0.0.0.0:81 0.0.0.0:0 LISTENING x\n";
    assert_eq!(parse_table_output(text), Vec::<(u32, u16)>::new());
}

#[test]
fn container_bindings_collapse_to_one_host_port() {
    let m = parse_container_ports(b"my-container\t0.0.0.0:8080->80/tcp, :::8080->80/tcp\n");
    assert_eq!(m.len(), 1);
    assert_eq!(m.get(&8080).map(|s| s.as_str()), Some("my-container"));
}

#[test]
fn container_lines_map_each_published_port() {
    let text = b"db\t0.0.0.0:5432->5432/tcp\nweb\t0.0.0.0:3000->3000/tcp, 0.0.0.0:3001->3001/tcp\nidle\t\nnotab\n";
    let m = parse_container_ports(text);
    assert_eq!(m.len(), 3);
    assert_eq!(m.get(&5432).map(|s| s.as_str()), Some("db"));
    assert_eq!(m.get(&3000).map(|s| s.as_str()), Some("web"));
    assert_eq!(m.get(&3001).map(|s| s.as_str()), Some("web"));
}

#[test]
fn container_later_line_replaces_earlier() {
    let m = parse_container_ports(b"a\t0.0.0.0:80->80/tcp\nb\t:::80->8080/tcp, bad->1/tcp\n");
    assert_eq!(m.len(), 1);
    assert_eq!(m.get(&80).map(|s| s.as_str()), Some("b"));
}

#[test]
fn container_listing_empty() {
    assert!(parse_container_ports(b"").is_empty());
}

#[test]
fn container_names_are_decoded_lossily() {
    let m = parse_container_ports(b"n\xffx\t0.0.0.0:81->81/tcp\n");
    assert_eq!(m.get(&81).map(|s| s.as_str()), Some("n\u{FFFD}x"));
}

#[test]
fn env_line_is_replaced_or_appended() {
    assert_eq!(
        update_env_content("A=1\nPORT=3000\nB=2", "PORT", "3001").unwrap(),
        "A=1\nPORT=3001\nB=2"
    );
    assert_eq!(
        update_env_content("PORT=1\nPORT=2\n", "PORT", "9").unwrap(),
        "PORT=9\nPORT=2\n"
    );
    assert_eq!(update_env_content("A=1", "PORT", "3001").unwrap(), "A=1\nPORT=3001");
    assert_eq!(update_env_content("port=1", "PORT", "5").unwrap(), "port=1\nPORT=5");
    assert_eq!(update_env_content("", "PORT", "5").unwrap(), "\nPORT=5");
    assert_eq!(update_env_content("x", "(", "5"), Err(EnvError::InvalidKey));
}
