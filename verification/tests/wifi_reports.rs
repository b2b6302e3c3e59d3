//! The signal reports of the platforms.
use ping_monitor::wifi::{
    parse_netsh_quality, parse_proc_net_wireless, parse_rssi, rssi_grade, rssi_verdict_grade,
};


#[test]
fn parses_rssi_label() {
    let s = "      Signal Strength (RSSI): -54\n";
    assert_eq!(parse_rssi(s), Some(-54));
}

#[test]
fn parses_signal_strength_label() {
    let s = "    Signal Strength: -42 dBm\n";
    assert_eq!(parse_rssi(s), Some(-42));
}

#[test]
fn parses_signal_noise_combo() {
    let s = "        Signal / Noise (dBm): -54 / -95\n";
    assert_eq!(parse_rssi(s), Some(-54));
}

#[test]
fn returns_none_when_no_wifi() {
    let s = "      Status Information: spairport_status_off\n";
    assert_eq!(parse_rssi(s), None);
}

#[test]
fn returns_none_on_empty() {
    assert_eq!(parse_rssi(""), None);
}

#[test]
fn ignores_positive_numbers() {
    let s = "      Channel: 6 dBm gain 23\n      RSSI: -68\n";
    assert_eq!(parse_rssi(s), Some(-68));
}

#[test]
fn parses_proc_net_wireless() {
    let s =
        "Inter-| sta-|   Quality        |   Discarded packets               | Missed | We\n";
    let s = format!("{s} face | tus | link level noise |  nwid  crypto   frag  retry   misc | beacon |  we\n  wlan0:  42. -68.  -256        0       0        0      0        0        0\n");
    assert_eq!(parse_proc_net_wireless(&s), Some(-68));
}

#[test]
fn proc_net_wireless_empty() {
    assert_eq!(parse_proc_net_wireless(""), None);
    assert_eq!(parse_proc_net_wireless("header\nheader\n"), None);
}

#[test]
fn parses_netsh_quality() {
    let s = "There is 1 interface on the system:\n\n    Name                   : Wi-Fi\n    Description            : Intel Wireless\n    Signal                 : 84%\n";
    assert_eq!(parse_netsh_quality(s), Some(-58));
}

#[test]
fn netsh_no_signal_returns_none() {
    let s = "There is 1 interface on the System:\n    Name : Wi-Fi\n    State : disconnected\n";
    assert_eq!(parse_netsh_quality(s), None);
}

#[test]
fn netsh_quality_zero_means_100() {
    let s = "    Signal                 : 100%\n";
    assert_eq!(parse_netsh_quality(s), Some(-50));
}

#[test]
fn labels_are_read_in_any_case() {
    assert_eq!(parse_rssi("rssi: -61"), Some(-61));
    assert_eq!(parse_rssi("RSSI: -61"), Some(-61));
    assert_eq!(parse_rssi("SIGNAL: -40"), Some(-40));
    assert_eq!(parse_netsh_quality("SIGNAL : 50%"), Some(-75));
}

#[test]
fn odd_reports() {
    // out of the range of the numbers
    assert_eq!(parse_rssi("rssi: -40000 -70"), Some(-70));
    assert_eq!(parse_netsh_quality("signal : 101%"), None);
    assert_eq!(parse_proc_net_wireless("a\nb\nwlan0: 0 12."), None);
    assert_eq!(parse_proc_net_wireless("a\nb\nwlan0: 0 -12"), Some(-12));
}

#[test]
fn grades_and_verdicts() {
    let grades: Vec<u8> = [-55, -56, -67, -68, -75, -76, -85, -86].map(rssi_grade).to_vec();
    assert_eq!(grades, vec![4, 3, 3, 2, 2, 1, 1, 0]);
    let words: Vec<&str> = (0..6).map(rssi_verdict_grade).collect();
    assert_eq!(words, vec!["bad", "weak", "fair", "good", "excellent", "bad"]);
}
