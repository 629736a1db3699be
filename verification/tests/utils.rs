use armada_lib::utils::get_interface_holding_default_route;

fn device(route: &str) -> Option<&str> {
    get_interface_holding_default_route(route.as_bytes())
        .map(|name| std::str::from_utf8(name).unwrap())
}

#[test]
fn the_device_of_the_default_route_is_found() {
    assert_eq!(
        device("default via 192.168.1.1 dev eth0 proto dhcp metric 100 \n"),
        Some("eth0")
    );
    assert_eq!(device("default via 10.0.0.1 dev wlp3s0"), Some("wlp3s0"));
    assert_eq!(device("dev lo"), Some("lo"));
    assert_eq!(device("default dev tun0\tscope link"), Some("tun0"));
}

#[test]
fn the_first_device_is_taken() {
    assert_eq!(device("default via 1.1.1.1 dev eth0\ndefault via 2.2.2.2 dev eth1\n"), Some("eth0"));
    assert_eq!(device("dev  eth0 dev eth1"), Some("eth1"));
}

#[test]
fn dev_must_begin_a_word_and_name_something() {
    assert_eq!(device(""), None);
    assert_eq!(device("default via 192.168.1.1"), None);
    assert_eq!(device("dev "), None);
    assert_eq!(device("dev"), None);
    assert_eq!(device("dev \n"), None);
    assert_eq!(device("nodev eth0"), None);
    assert_eq!(device("_dev eth0"), None);
    assert_eq!(device("9dev eth0"), None);
    assert_eq!(device("-dev eth0"), Some("eth0"));
    assert_eq!(device("nodev eth0 dev eth1"), Some("eth1"));
    assert_eq!(device("DEV eth0"), None);
}
