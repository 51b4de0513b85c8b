//! Tests of the daemon text-protocol parsers.

use jack_streaming_manager::parse::{parse_jack_connections, parse_jack_ports};
use jack_streaming_manager::pid::{format_u32, parse_u32};

fn names(props: &[&str]) -> Vec<Vec<u8>> {
    props.iter().map(|p| p.as_bytes().to_vec()).collect()
}

#[test]
fn port_listing_round_trip() {
    let block = b"portA\n\tproperties: output, terminal\nportB\n\tproperties: input\n";
    let ports = parse_jack_ports(block);
    assert_eq!(ports.len(), 2);
    assert_eq!(ports[0].name, b"portA".to_vec());
    assert_eq!(ports[0].properties, names(&["output", "terminal"]));
    assert_eq!(ports[1].name, b"portB".to_vec());
    assert_eq!(ports[1].properties, names(&["input"]));
}

#[test]
fn port_without_properties_line() {
    let ports = parse_jack_ports(b"only_port\n");
    assert_eq!(ports.len(), 1);
    assert_eq!(ports[0].name, b"only_port".to_vec());
    assert!(ports[0].properties.is_empty());
}

#[test]
fn port_listing_ignores_stray_indented_lines() {
    let ports = parse_jack_ports(b"\tnoise before any port\np\n\tsome peer\n\tproperties: input\n");
    assert_eq!(ports.len(), 1);
    assert_eq!(ports[0].name, b"p".to_vec());
    assert_eq!(ports[0].properties, names(&["input"]));
}

#[test]
fn port_listing_empty_input() {
    assert!(parse_jack_ports(b"").is_empty());
}

#[test]
fn later_properties_line_replaces_earlier() {
    let ports = parse_jack_ports(b"p\n\tproperties: input\n\tproperties: output\n");
    assert_eq!(ports.len(), 1);
    assert_eq!(ports[0].properties, names(&["output"]));
}

#[test]
fn connections_emitted_only_for_output_ports() {
    let block = b"src\n   peer_1\n   peer_2\n   properties: output,\ndst\n   properties: input\n";
    let conns = parse_jack_connections(block);
    assert_eq!(
        conns,
        vec![
            (b"src".to_vec(), b"peer_1".to_vec()),
            (b"src".to_vec(), b"peer_2".to_vec()),
        ]
    );
}

#[test]
fn connections_input_port_peers_are_dropped() {
    let block = b"dst\n   peer_1\n   properties: input,\n";
    assert!(parse_jack_connections(block).is_empty());
}

#[test]
fn connections_peers_buffered_across_port_without_properties() {
    // A port line does not clear buffered peers: peers listed under a port
    // that never got its properties line are flushed with the next port
    // whose properties say output.
    let block = b"p1\n   orphan\np2\n   properties: output\n";
    let conns = parse_jack_connections(block);
    assert_eq!(conns, vec![(b"p2".to_vec(), b"orphan".to_vec())]);
}

#[test]
fn connections_buffer_cleared_even_without_output() {
    let block = b"p1\n   peer\n   properties: input\n   properties: output\n";
    assert!(parse_jack_connections(block).is_empty());
}

#[test]
fn port_listing_with_carriage_returns() {
    let block = b"portA\r\n\tproperties: output\r\nportB\r\n";
    let ports = parse_jack_ports(block);
    assert_eq!(ports.len(), 2);
    assert_eq!(ports[0].name, b"portA".to_vec());
    assert_eq!(ports[0].properties, names(&["output"]));
    assert_eq!(ports[1].name, b"portB".to_vec());
}

#[test]
fn properties_list_drops_empty_pieces() {
    let ports = parse_jack_ports(b"p\n\tproperties: , output , ,terminal\n");
    assert_eq!(ports[0].properties, names(&["output", "terminal"]));
}

#[test]
fn pid_round_trip_and_rejects() {
    assert_eq!(format_u32(4242), b"4242".to_vec());
    assert_eq!(format_u32(0), b"0".to_vec());
    assert_eq!(format_u32(u32::MAX), b"4294967295".to_vec());
    assert_eq!(parse_u32(b"4242"), Some(4242));
    assert_eq!(parse_u32(b" 42 \n"), Some(42));
    assert_eq!(parse_u32(b"+7"), Some(7));
    assert_eq!(parse_u32(b"007"), Some(7));
    assert_eq!(parse_u32(b"4294967295"), Some(u32::MAX));
    assert_eq!(parse_u32(b"4294967296"), None);
    assert_eq!(parse_u32(b""), None);
    assert_eq!(parse_u32(b"  "), None);
    assert_eq!(parse_u32(b"12a"), None);
    assert_eq!(parse_u32(b"-1"), None);
    assert_eq!(parse_u32(&format_u32(987654321)), Some(987654321));
}
