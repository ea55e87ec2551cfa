use pnet_datalink::interfaces::{
    adapter_slots, describe, interfaces, supported_interfaces, Adapter, NetworkInterface,
    UnicastAddress,
};
use pnet_datalink::names::device_names;
use pnet_datalink::net::{
    ip_network, parse_ip_network, IpAddress, IpNetwork, MacAddr, SocketAddress,
};
use pnet_datalink::query::{InterfaceQuery, QueryAction, QueryEvent};
use pnet_datalink::text::ends_with;

fn v4(text: &str) -> SocketAddress {
    SocketAddress { family: 2, text: text.as_bytes().to_vec() }
}

fn v6(text: &str) -> SocketAddress {
    SocketAddress { family: 23, text: text.as_bytes().to_vec() }
}

fn adapter(name: &str, index: u32) -> Adapter {
    Adapter {
        physical_address: [1, 2, 3, 4, 5, 6, 7, 8],
        unicast: vec![],
        name: name.as_bytes().to_vec(),
        description: "card".encode_utf16().collect(),
        index,
        flags: 64,
    }
}

fn indices(interfaces: &[NetworkInterface]) -> Vec<(String, u32)> {
    interfaces.iter().map(|interface| (interface.name.clone(), interface.index)).collect()
}

#[test]
fn v4_network() {
    assert_eq!(
        parse_ip_network(&v4("192.168.1.20"), 24),
        Ok(IpNetwork { address: IpAddress::V4([192, 168, 1, 20]), prefix: 24 })
    );
    assert!(parse_ip_network(&v4("192.168.1.20"), 32).is_ok());
    assert_eq!(parse_ip_network(&v4("192.168.1.20"), 33), Err(()));
}

#[test]
fn v6_network() {
    let mut octets = [0u8; 16];
    octets[0] = 0xfe;
    octets[1] = 0x80;
    octets[15] = 1;
    assert_eq!(
        parse_ip_network(&v6("fe80::1"), 64),
        Ok(IpNetwork { address: IpAddress::V6(octets), prefix: 64 })
    );
    assert!(parse_ip_network(&v6("fe80::1"), 128).is_ok());
    assert_eq!(parse_ip_network(&v6("fe80::1"), 129), Err(()));
}

#[test]
fn text_that_is_no_address() {
    assert_eq!(parse_ip_network(&v4("192.168.1"), 24), Err(()));
    assert_eq!(parse_ip_network(&v4("192.168.01.1"), 24), Err(()));
    assert_eq!(parse_ip_network(&v6(""), 0), Err(()));
    let bad = SocketAddress { family: 23, text: vec![0xff, 0xfe] };
    assert_eq!(parse_ip_network(&bad, 0), Err(()));
}

#[test]
fn network_of_an_address_that_was_read() {
    let address = IpAddress::V4([10, 0, 0, 1]);
    assert_eq!(ip_network(Some(address), 8), Ok(IpNetwork { address, prefix: 8 }));
    assert_eq!(ip_network(Some(address), 255), Err(()));
    assert_eq!(ip_network(None, 8), Err(()));
}

#[test]
fn suffixes() {
    assert!(ends_with("\\Device\\NPF_{A}", "{A}"));
    assert!(ends_with("{A}", "{A}"));
    assert!(ends_with("x", ""));
    assert!(!ends_with("{A}", "x{A}"));
    assert!(!ends_with("{A}", "{B}"));
    assert!(ends_with("caf\u{e9}", "\u{e9}"));
}

#[test]
fn names_up_to_the_double_zero() {
    assert_eq!(device_names(b"one\0two\0\0three\0"), vec!["one", "two"]);
    assert_eq!(device_names(b"one"), vec!["one"]);
    assert_eq!(device_names(b"one\0"), vec!["one", ""]);
    assert_eq!(device_names(b"\0\0"), vec![""]);
    assert_eq!(device_names(b""), vec![""]);
    assert_eq!(device_names(b"a\0\0\0"), vec!["a"]);
    assert_eq!(device_names("\u{e9}\0\u{1F600}".as_bytes()), vec!["\u{e9}", "\u{1F600}"]);
}

#[test]
fn adapter_is_described() {
    let mut adapter = adapter("{A}", 7);
    adapter.description = vec![0x48, 0xD83D, 0xDE00];
    adapter.unicast = vec![
        UnicastAddress { address: v4("10.0.0.1"), prefix: 8 },
        UnicastAddress { address: v4("10.0.0.2"), prefix: 40 },
        UnicastAddress { address: v6("::"), prefix: 0 },
    ];
    assert!(adapter.is_wf());
    let interface = describe(&adapter);
    assert_eq!(interface.name, "{A}");
    assert_eq!(interface.description, "H\u{1F600}");
    assert_eq!(interface.index, 7);
    assert_eq!(interface.mac, Some(MacAddr(1, 2, 3, 4, 5, 6)));
    assert_eq!(
        interface.ips,
        vec![
            IpNetwork { address: IpAddress::V4([10, 0, 0, 1]), prefix: 8 },
            IpNetwork { address: IpAddress::V6([0; 16]), prefix: 0 },
        ]
    );
    assert_eq!(interface.flags, 64);
}

#[test]
fn adapters_that_cannot_be_described() {
    let mut lone_surrogate = adapter("{A}", 1);
    lone_surrogate.description = vec![0xD83D];
    assert!(!lone_surrogate.is_wf());
    let mut swapped = adapter("{A}", 1);
    swapped.description = vec![0xDE00, 0xD83D];
    assert!(!swapped.is_wf());
    let mut bytes = adapter("{A}", 1);
    bytes.name = vec![0x80];
    assert!(!bytes.is_wf());
    let mut family = adapter("{A}", 1);
    let address = SocketAddress { family: 1, text: vec![] };
    family.unicast = vec![UnicastAddress { address, prefix: 0 }];
    assert!(!family.is_wf());
}

#[test]
fn devices_take_the_first_adapter_that_fits() {
    let adapters = vec![adapter("{A}", 1), adapter("{B}", 2), adapter("A}", 3), adapter("{C}", 4)];
    let list = interfaces(&adapters, b"NPF_{B}\0NPF_{A}\0NPF_{D}\0\0NPF_{C}");
    assert_eq!(
        indices(&list),
        vec![(String::from("NPF_{B}"), 2), (String::from("NPF_{A}"), 1)]
    );
    assert!(list.iter().all(|interface| !interface.name.as_bytes().contains(&0)));
}

#[test]
fn empty_adapter_name_fits_everything() {
    let all: Vec<NetworkInterface> = vec![describe(&adapter("", 9))];
    let list = supported_interfaces(&all, b"x\0");
    assert_eq!(indices(&list), vec![(String::from("x"), 9), (String::new(), 9)]);
}

#[test]
fn slots_are_rounded_up() {
    assert_eq!(adapter_slots(0, 376), 0);
    assert_eq!(adapter_slots(1, 376), 1);
    assert_eq!(adapter_slots(376, 376), 1);
    assert_eq!(adapter_slots(377, 376), 2);
    assert_eq!(adapter_slots(u32::MAX, 1), u32::MAX);
}

#[test]
fn query_answers_at_once() {
    let mut query = InterfaceQuery::new();
    let sized = QueryEvent::Sized { adapters_size: 100, entry_size: 30 };
    assert_eq!(query.step(sized), QueryAction::List { slots: 4 });
    let listed = QueryEvent::Listed { error: 0, adapters: vec![adapter("{A}", 1)] };
    assert_eq!(query.step(listed), QueryAction::GetNames { len: 4096 });
    let named = QueryEvent::Named { ret: 1, len: 4096, buffer: b"NPF_{A}\0\0\0".to_vec() };
    let expected = interfaces(&vec![adapter("{A}", 1)], b"NPF_{A}\0\0\0");
    assert_eq!(expected.len(), 1);
    assert_eq!(query.step(named), QueryAction::Answer { interfaces: expected });
}

#[test]
fn query_asks_again_with_the_right_size() {
    let mut query = InterfaceQuery::new();
    query.step(QueryEvent::Sized { adapters_size: 0, entry_size: 1 });
    query.step(QueryEvent::Listed { error: 0, adapters: vec![] });
    let refused = QueryEvent::Named { ret: 0, len: 5000, buffer: vec![] };
    assert_eq!(query.step(refused), QueryAction::GetNames { len: 5000 });
    let named = QueryEvent::Named { ret: 1, len: 5000, buffer: b"NPF_{A}\0\0".to_vec() };
    assert_eq!(query.step(named), QueryAction::Answer { interfaces: vec![] });
}

#[test]
fn query_gives_up_on_errors() {
    let mut query = InterfaceQuery::new();
    query.step(QueryEvent::Sized { adapters_size: 0, entry_size: 1 });
    let failed = QueryEvent::Listed { error: 87, adapters: vec![] };
    assert_eq!(query.step(failed), QueryAction::NoAdapters { error: 87 });

    let mut query = InterfaceQuery::new();
    query.step(QueryEvent::Sized { adapters_size: 0, entry_size: 1 });
    query.step(QueryEvent::Listed { error: 0, adapters: vec![] });
    query.step(QueryEvent::Named { ret: 0, len: 5000, buffer: vec![] });
    let refused = QueryEvent::Named { ret: 0, len: 9000, buffer: vec![] };
    assert_eq!(query.step(refused), QueryAction::NoNames);
}
