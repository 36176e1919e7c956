use auxcast::cast::{option_label, receiver_app, stream_url, ReceiverApp};
use auxcast::device::{device_from_response, response_address, ChromecastDevice, DnsRecord, IpAddress};
use auxcast::discovery::{Discovery, Step};
use auxcast::text::{contains_pattern, precedes, push_decimal, starts_with};

fn txt(entries: &[&str]) -> DnsRecord {
    DnsRecord::Txt(entries.iter().map(|s| s.to_string()).collect())
}

fn ipv4(a: u8, b: u8, c: u8, d: u8) -> u32 {
    u32::from_be_bytes([a, b, c, d])
}

fn response(name: &str, model: &str, addr: u32) -> Vec<DnsRecord> {
    vec![
        DnsRecord::Ptr("_googlecast._tcp.local".to_string()),
        txt(&[&format!("fn={}", name), &format!("md={}", model)]),
        DnsRecord::A(addr),
    ]
}

#[test]
fn response_lines_and_fields() {
    let records = vec![
        DnsRecord::Ptr("_googlecast._tcp.local".to_string()),
        DnsRecord::Srv { priority: 0, weight: 10, port: 8009, target: "abc.local".to_string() },
        txt(&["id=1234", "md=Chromecast Audio", "fn=Kitchen"]),
        DnsRecord::A(ipv4(192, 168, 1, 20)),
        DnsRecord::Aaaa { addr: 1, text: "::1".to_string() },
        DnsRecord::Other("CNAME(\"x.local\")".to_string()),
    ];
    let d = device_from_response(&records).unwrap();
    assert_eq!(d.name, "Kitchen");
    assert_eq!(d.ip, IpAddress::V4(ipv4(192, 168, 1, 20)));
    assert!(!d.is_group);
    assert_eq!(
        d.records,
        vec![
            "PTR: _googlecast._tcp.local",
            "SRV: priority=0, weight=10, port=8009, target=abc.local",
            "TXT: id=1234",
            "TXT: md=Chromecast Audio",
            "TXT: fn=Kitchen",
            "A: 192.168.1.20",
            "AAAA: ::1",
            "Other: CNAME(\"x.local\")",
        ]
    );
}

#[test]
fn later_name_entry_wins() {
    let records = vec![txt(&["fn=First", "fn=Second"]), DnsRecord::A(1)];
    assert_eq!(device_from_response(&records).unwrap().name, "Second");
}

#[test]
fn unnamed_device() {
    let records = vec![DnsRecord::A(ipv4(10, 0, 0, 1))];
    let d = device_from_response(&records).unwrap();
    assert_eq!(d.name, "Unknown Device");
    assert_eq!(d.records, vec!["A: 10.0.0.1"]);
}

#[test]
fn group_model_marks_a_group() {
    let d = device_from_response(&response("Living Room", "Google Cast Group", 7)).unwrap();
    assert!(d.is_group);
    let d = device_from_response(&response("Whole House", "My Google Cast Group v2", 7)).unwrap();
    assert!(d.is_group);
    let d = device_from_response(&response("Den", "Google Cast", 7)).unwrap();
    assert!(!d.is_group);
}

#[test]
fn first_address_is_taken() {
    let records = vec![
        DnsRecord::Ptr("p".to_string()),
        DnsRecord::Aaaa { addr: 42, text: "::2a".to_string() },
        DnsRecord::A(5),
    ];
    assert_eq!(response_address(&records), Some(IpAddress::V6(42)));
}

#[test]
fn response_without_address_is_passed_over() {
    let records = vec![txt(&["fn=Ghost"]), DnsRecord::Ptr("x".to_string())];
    assert!(device_from_response(&records).is_none());
    let mut discovery = Discovery::new();
    assert_eq!(discovery.handle_response(&records), Step::Continue);
    assert!(discovery.finish().is_empty());
}

#[test]
fn repeat_ends_discovery() {
    let mut discovery = Discovery::new();
    assert_eq!(discovery.handle_response(&response("Kitchen", "Chromecast", 1)), Step::Continue);
    assert_eq!(discovery.handle_response(&response("Kitchen", "Chromecast", 2)), Step::Continue);
    assert_eq!(discovery.handle_response(&response("Bedroom", "Chromecast", 1)), Step::Continue);
    assert_eq!(discovery.handle_response(&response("Kitchen", "Other model", 1)), Step::Stop);
    let listed = discovery.finish();
    assert_eq!(listed.len(), 3);
}

#[test]
fn listing_puts_groups_first_sorted_by_name() {
    let mut discovery = Discovery::new();
    for (name, model, addr) in [
        ("Kitchen", "Chromecast Audio", 1),
        ("Upstairs", "Google Cast Group", 2),
        ("Bedroom", "Chromecast", 3),
        ("All", "Google Cast Group", 4),
        ("attic", "Chromecast", 5),
    ] {
        assert_eq!(discovery.handle_response(&response(name, model, addr)), Step::Continue);
    }
    let listed: Vec<(String, bool)> = discovery.finish().into_iter().map(|d| (d.name, d.is_group)).collect();
    let expected: Vec<(String, bool)> = vec![
        ("All".to_string(), true),
        ("Upstairs".to_string(), true),
        ("Bedroom".to_string(), false),
        ("Kitchen".to_string(), false),
        ("attic".to_string(), false),
    ];
    assert_eq!(listed, expected);
}

#[test]
fn equal_names_keep_their_order() {
    let mut discovery = Discovery::new();
    discovery.handle_response(&response("Speaker", "Chromecast", 9));
    discovery.handle_response(&response("Speaker", "Chromecast", 3));
    let listed = discovery.finish();
    assert_eq!(listed[0].ip, IpAddress::V4(9));
    assert_eq!(listed[1].ip, IpAddress::V4(3));
}

#[test]
fn text_helpers() {
    assert!(starts_with("fn=Kitchen", "fn="));
    assert!(!starts_with("f", "fn="));
    assert!(contains_pattern("abcabd", "abd"));
    assert!(!contains_pattern("abcab", "abd"));
    assert!(contains_pattern("x", ""));
    assert!(precedes("Apple", "Banana"));
    assert!(precedes("App", "Apple"));
    assert!(!precedes("apple", "Banana"));
    assert!(!precedes("Same", "Same"));
    assert!(precedes("Zebra", "Élan"));
    let mut s = String::new();
    push_decimal(&mut s, 4_294_967_295);
    assert_eq!(s, "4294967295");
    let mut z = String::from("n=");
    push_decimal(&mut z, 0);
    assert_eq!(z, "n=0");
}

fn device(name: &str, is_group: bool) -> ChromecastDevice {
    ChromecastDevice { name: name.to_string(), ip: IpAddress::V4(1), is_group, records: vec![] }
}

#[test]
fn receiver_app_by_kind() {
    let group = receiver_app(&device("All", true));
    assert_eq!(group, ReceiverApp::CastAudioReceiver);
    assert_eq!(group.custom_id(), Some("2872939A".to_string()));
    assert_eq!(group.label(), "Cast Audio Receiver");
    let single = receiver_app(&device("Den", false));
    assert_eq!(single, ReceiverApp::DefaultMediaReceiver);
    assert_eq!(single.custom_id(), None);
    assert_eq!(single.label(), "Default Media Receiver");
}

#[test]
fn stream_url_and_labels() {
    assert_eq!(stream_url("192.168.1.5", 8080), "http://192.168.1.5:8080/audio");
    assert_eq!(option_label(&device("All", true), None), "Speaker Group: All ");
    assert_eq!(option_label(&device("Den", false), Some("10.0.0.2")), "Device: Den (10.0.0.2)");
}
