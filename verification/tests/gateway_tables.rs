//! The routing tables of the platforms.
use ping_monitor::gateway::{parse_proc_net_route, parse_route_get, parse_route_print};


#[test]
fn parses_macos_route_get() {
    let s = "   route to: default\ndestination: default\n       mask: default\n    gateway: 192.168.1.1\n  interface: en0\n";
    assert_eq!(parse_route_get(s), Some("192.168.1.1".to_string()));
}

#[test]
fn route_get_without_gateway_returns_none() {
    let s = "   route to: 10.0.0.0\n    gateway: link#4\n";
    assert_eq!(parse_route_get(s), None);
    assert_eq!(parse_route_get(""), None);
}

#[test]
fn parses_proc_net_route() {
    let s =
        "Iface\tDestination\tGateway\tFlags\tRefCnt\tUse\tMetric\tMask\tMTU\tWindow\tIRTT\n\
             eth0\t00000000\t0101A8C0\t0003\t0\t0\t100\t00000000\t0\t0\t0\n\
             eth0\t0001A8C0\t00000000\t0001\t0\t0\t100\t00FFFFFF\t0\t0\t0\n";
    assert_eq!(parse_proc_net_route(s), Some("192.168.1.1".to_string()));
}

#[test]
fn proc_net_route_without_default_returns_none() {
    let s = "Iface\tDestination\tGateway\tFlags\n\
             eth0\t0001A8C0\t00000000\t0001\n";
    assert_eq!(parse_proc_net_route(s), None);
    assert_eq!(parse_proc_net_route(""), None);
}

#[test]
fn parses_windows_route_print() {
    let s = "IPv4 Route Table\n\
             ===========================================================================\n\
             Active Routes:\n\
             Network Destination        Netmask          Gateway       Interface  Metric\n\
                      0.0.0.0          0.0.0.0      192.168.1.1     192.168.1.50     25\n\
                    127.0.0.0        255.0.0.0         On-link         127.0.0.1    331\n";
    assert_eq!(parse_route_print(s), Some("192.168.1.1".to_string()));
}

#[test]
fn route_print_on_link_gateway_returns_none() {
    let s = "          0.0.0.0          0.0.0.0         On-link      192.168.1.50    25\n";
    assert_eq!(parse_route_print(s), None);
    assert_eq!(parse_route_print(""), None);
}

#[test]
fn gateways_that_are_no_addresses() {
    assert_eq!(parse_route_get("gateway: 0.0.0.0"), None);
    assert_eq!(parse_route_get("gateway: 256.1.1.1"), None);
    assert_eq!(parse_route_get("gateway: 1.2.3"), None);
    assert_eq!(parse_route_get("gateway: 01.2.3.4"), None);
    assert_eq!(parse_route_get("gateway: link#4\n gateway: 10.0.0.1"), Some("10.0.0.1".to_string()));
    // a default route without a gateway is passed over, a broken one ends the search
    let s = "h\neth0\t00000000\t00000000\neth1\t00000000\t0100000A\n";
    assert_eq!(parse_proc_net_route(s), Some("10.0.0.1".to_string()));
    let s = "h\neth0\t00000000\tZZ\neth1\t00000000\t0100000A\n";
    assert_eq!(parse_proc_net_route(s), None);
}
