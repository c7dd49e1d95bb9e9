use anteater::config::{end_port_guard, start_port_guard, Arguments};
use anteater::iface::{select_interface, InterfaceError, InterfaceInfo};
use anteater::service::ServiceTable;

#[test]
fn port_guards() {
    assert!(!start_port_guard(&0));
    assert!(start_port_guard(&1));
    assert!(start_port_guard(&65535));
    assert!(end_port_guard(&1));
    assert!(end_port_guard(&65535));
}

#[test]
fn service_table_lookup() {
    let table = ServiceTable::standard();
    assert_eq!(table.lookup(80).as_deref(), Some("HTTP"));
    assert_eq!(table.lookup(81), None);
    assert_eq!(table.lookup(443), None);
}

fn iface(name: &str, up: bool, loopback: bool) -> InterfaceInfo {
    InterfaceInfo { name: String::from(name), up, loopback }
}

#[test]
fn requested_interface_must_exist() {
    let list = vec![iface("lo", true, true), iface("eth0", true, false)];
    assert_eq!(
        select_interface(&Some(String::from("eth0")), &list),
        Ok(String::from("eth0"))
    );
    assert_eq!(
        select_interface(&Some(String::from("wlan1")), &list),
        Err(InterfaceError::NotFound)
    );
}

#[test]
fn default_interface_is_first_usable() {
    let list = vec![
        iface("lo", true, true),
        iface("down0", false, false),
        iface("eth0", true, false),
        iface("eth1", true, false),
    ];
    assert_eq!(select_interface(&None, &list), Ok(String::from("eth0")));

    let unusable = vec![iface("lo", true, true), iface("down0", false, false)];
    assert_eq!(
        select_interface(&None, &unusable),
        Err(InterfaceError::NoneSuitable)
    );
}

#[test]
fn arguments_carry_the_full_configuration() {
    let args = Arguments {
        target: String::from("192.0.2.0/30"),
        start_port: 1,
        end_port: 1024,
        timeout: 3,
        concurrency: 100,
        output_file: None,
        json_output: false,
        detect_services: true,
        grab_banners: false,
        scan_udp: true,
        interface: None,
        rate_limit: 100,
        use_ipv6: false,
    };
    assert_eq!(args.start_port, 1);
    assert_eq!(args.end_port, 1024);
    assert!(args.scan_udp);
    let copy = args.clone();
    assert_eq!(copy.target, "192.0.2.0/30");
}
