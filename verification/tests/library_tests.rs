use wireguard_install::client::{
    check_allowed_ips, check_client_name, client_config_file_name, client_config_text,
    client_list_lines,
    extract_client_names, find_available_ipv4, find_available_ipv6, format_endpoint,
    get_optional_var, get_required_var, ipv6_subnet_label, parse_shell_vars,
    parse_wireguard_params, qr_code_text, remove_client_from_config, revocation_outcome,
    server_peer_block, validate_ipv4_address, validate_ipv6_address, ClientConfig,
    RevocationOutcome,
};
use wireguard_install::initialization::{menu_action, menu_options, MenuAction};
use wireguard_install::install::{
    build_install_answers, classify_ipv4_address, create_initial_multi_interface_config,
    create_pub_priv_keys, detect_primary_interface, find_default_route_interface,
    format_ip_display, install_commands, key_from_output, order_address_offers, params_file_text,
    server_config_text, FirewallType, IpAddressType, KeyCommandOutput,
};
use wireguard_install::interface::{
    check_interface_port, check_new_interface_name, client_interface_choice,
    count_interface_clients, extract_prefix_from_subnet, get_interface_config,
    get_public_interface, interface_config_text, interface_option, register_interface,
};
use wireguard_install::ipv4::{parse_ipv4_str, Ipv4};
use wireguard_install::migration::{
    migrated_config, needs_migration, parse_port, read_old_params, parse_old_params,
};
use wireguard_install::models::{InstallAnswers, InterfaceConfig, MultiInterfaceConfig, VersionInfo};
use wireguard_install::network::{
    calculate_subnet_size, detect_subnet_conflicts, is_port_in_use, validate_subnet,
    Ipv4Net,
};
use wireguard_install::os_detection::{get_os, get_os_with_version, OsType};
use wireguard_install::services::{
    enable_interface_steps, service_command_outcome, service_setup_steps, step_result,
    CommandStatus, InitSystem, StepResult,
};
use wireguard_install::uninstall::{package_removal_outcome, removal_plan, uninstall_verdict};

fn ip(s: &str) -> Ipv4 {
    parse_ipv4_str(s).unwrap()
}

fn sample_answers() -> InstallAnswers {
    InstallAnswers {
        server_pub_ip: ip("203.0.113.7"),
        server_public_nic: "eth0".to_string(),
        server_pub_ipv6: None,
        server_wg_nic: "wg0".to_string(),
        server_wg_ip: ip("10.19.11.1"),
        server_wg_subnet: "10.19.11.0/24".to_string(),
        server_wg_port: 51820,
        server_priv_key: "cHJpdmF0ZQ==".to_string(),
        server_pub_key: "cHVibGlj".to_string(),
        client_dns_1: ip("1.1.1.1"),
        client_dns_2: ip("1.0.0.1"),
        allowed_ips: "0.0.0.0/0".to_string(),
    }
}

fn iface(name: &str, subnet: &str, server: &str, port: u16, active: bool) -> InterfaceConfig {
    InterfaceConfig {
        name: name.to_string(),
        subnet: subnet.to_string(),
        server_ip: ip(server),
        port,
        private_key: "priv".to_string(),
        public_key: "pub".to_string(),
        created_at: "2026-01-25T10:00:00Z".to_string(),
        active,
    }
}

fn client(name: &str, addr: &str, ipv6: Option<&str>) -> ClientConfig {
    ClientConfig {
        name: name.to_string(),
        private_key: "cpriv".to_string(),
        public_key: "cpub".to_string(),
        preshared_key: "cpsk".to_string(),
        ipv4: ip(addr),
        ipv6: ipv6.map(|s| s.to_string()),
        home_dir: "/root".to_string(),
        use_dns: true,
        allowed_ips: "0.0.0.0/0".to_string(),
    }
}

// ----- addresses and networks -----

#[test]
fn ipv4_text_round_trip() {
    let a = ip("192.168.100.200");
    assert_eq!(a.octets(), [192, 168, 100, 200]);
    assert_eq!(a.to_dotted_string(), "192.168.100.200");
    assert!(parse_ipv4_str("256.1.1.1").is_none());
    assert!(parse_ipv4_str("1.2.3").is_none());
    assert!(parse_ipv4_str("01.2.3.4").is_none());
    assert!(parse_ipv4_str("1.2.3.4 ").is_none());
}

#[test]
fn subnet_errors_name_the_rule() {
    assert_eq!(
        validate_subnet("invalid").unwrap_err(),
        "Invalid CIDR format. Please use format like 10.19.0.0/24"
    );
    assert_eq!(validate_subnet("fd00::/64").unwrap_err(), "IPv6 subnets are not supported yet");
    assert_eq!(
        validate_subnet("8.8.8.0/24").unwrap_err(),
        "Subnet must be within private network ranges (10.0.0.0/8, 172.16.0.0/12, 192.168.0.0/16)"
    );
    assert_eq!(
        validate_subnet("10.0.0.0/31").unwrap_err(),
        "Subnet too small. Minimum size is /30 (4 addresses)"
    );
    assert_eq!(validate_subnet("10.0.0.0/7").unwrap_err(), "Subnet too large. Maximum size is /8");
    assert_eq!(calculate_subnet_size("10.19.11.0/24").unwrap(), 256);
    assert_eq!(calculate_subnet_size("172.16.50.0/28").unwrap(), 16);
}

#[test]
fn overlapping_networks_share_an_address() {
    let a = Ipv4Net::parse("10.0.0.0/8").unwrap();
    let b = Ipv4Net::parse("10.1.0.0/16").unwrap();
    let c = Ipv4Net::parse("10.0.1.0/24").unwrap();
    let d = Ipv4Net::parse("10.0.0.0/24").unwrap();
    assert!(a.overlaps(&b) && b.overlaps(&a));
    assert!(b.contains(ip("10.1.2.3")) && a.contains(ip("10.1.2.3")));
    assert!(!c.overlaps(&d) && !d.overlaps(&c));
    assert_eq!(d.broadcast().to_dotted_string(), "10.0.0.255");
    assert_eq!(Ipv4Net::parse("10.0.0.5/30").unwrap().network().to_dotted_string(), "10.0.0.4");
}

#[test]
fn subnet_conflicts_with_interfaces_and_routes() {
    let mut config = MultiInterfaceConfig::new();
    config.interfaces.insert("wg0".to_string(), iface("wg0", "10.19.11.0/24", "10.19.11.1", 51820, true));
    let ok_routes: Result<String, String> = Ok("default via 192.168.1.1 dev eth0\n192.168.1.0/24 dev eth0 proto kernel\n".to_string());
    assert!(detect_subnet_conflicts("10.19.12.0/24", &config, &ok_routes).is_ok());
    assert_eq!(
        detect_subnet_conflicts("10.19.0.0/16", &config, &ok_routes).unwrap_err(),
        "Subnet 10.19.0.0/16 conflicts with existing interface wg0 (10.19.11.0/24)"
    );
    let routes: Result<String, String> = Ok("192.168.5.0/24 dev eth1 scope link\n".to_string());
    let e = detect_subnet_conflicts("192.168.5.0/28", &config, &routes).unwrap_err();
    assert!(e.starts_with("System route conflict: "));
    let failed: Result<String, String> = Err("Failed to execute 'ip route show'".to_string());
    assert_eq!(
        detect_subnet_conflicts("10.19.12.0/24", &config, &failed).unwrap_err(),
        "System route conflict: Failed to execute 'ip route show'"
    );
}

#[test]
fn port_listing_and_suggestion() {
    let listing = "UNCONN 0 0 0.0.0.0:51820 0.0.0.0:* users:((\"wg\"))\nudp UNCONN 0 0 0.0.0.0:51821 0.0.0.0:*\n";
    assert!(is_port_in_use(51821, listing));
    assert!(!is_port_in_use(51820, listing));
    assert!(!is_port_in_use(51822, listing));
}

// ----- interfaces -----

#[test]
fn next_interface_name_is_the_smallest_unused() {
    let mut config = MultiInterfaceConfig::new();
    config.interfaces.insert("wg0".to_string(), iface("wg0", "10.19.11.0/24", "10.19.11.1", 51820, true));
    config.interfaces.insert("wg2".to_string(), iface("wg2", "10.19.13.0/24", "10.19.13.1", 51822, true));
    assert_eq!(config.get_next_interface_name(), "wg1");
    config.next_suggested_port = 51820;
    assert_eq!(config.get_next_suggested_port(), 51821);
}

#[test]
fn interface_table_keeps_one_entry_per_name() {
    let mut config = MultiInterfaceConfig::new();
    assert!(config.interfaces.insert("wg0".to_string(), iface("wg0", "10.19.11.0/24", "10.19.11.1", 51820, true)).is_none());
    let old = config.interfaces.insert("wg0".to_string(), iface("wg0", "10.19.12.0/24", "10.19.12.1", 51821, true));
    assert_eq!(old.unwrap().port, 51820);
    assert_eq!(config.interfaces.len(), 1);
    assert_eq!(config.interfaces.get("wg0").unwrap().port, 51821);
    assert_eq!(config.interfaces.remove("wg0").unwrap().port, 51821);
    assert!(config.interfaces.is_empty());
}

#[test]
fn new_interface_checks() {
    let mut config = MultiInterfaceConfig::new();
    config.interfaces.insert("wg0".to_string(), iface("wg0", "10.19.11.0/24", "10.19.11.1", 51820, true));
    assert_eq!(check_new_interface_name(&config, "wg0").unwrap_err(), "Interface wg0 already exists");
    assert_eq!(
        check_new_interface_name(&config, "eth9").unwrap_err(),
        "Interface name must start with 'wg' (e.g., wg0, wg1, wg2)"
    );
    assert!(check_new_interface_name(&config, "wg1").is_ok());
    let existing = vec![51820u16];
    assert_eq!(check_interface_port("abc", &existing, "").unwrap_err(), "Invalid port number");
    assert_eq!(check_interface_port("80", &existing, "").unwrap_err(), "Port must be between 1024 and 65535");
    assert_eq!(
        check_interface_port("51820", &existing, "").unwrap_err(),
        "Port 51820 is already used by another interface"
    );
    assert_eq!(
        check_interface_port("51821", &existing, "udp 0.0.0.0:51821").unwrap_err(),
        "Port 51821 is already in use by another process"
    );
    assert_eq!(check_interface_port("51822", &existing, "").unwrap(), 51822);
}

#[test]
fn registering_an_interface_moves_the_port_suggestion() {
    let mut config = MultiInterfaceConfig::new();
    register_interface(&mut config, iface("wg1", "10.19.12.0/24", "10.19.12.1", 51830, true));
    assert_eq!(config.next_suggested_port, 51831);
    assert_eq!(get_interface_config(&config, "wg1").unwrap().subnet, "10.19.12.0/24");
    assert_eq!(get_interface_config(&config, "wg7").err().unwrap(), "Interface wg7 not found");
}

#[test]
fn interface_configuration_file() {
    assert_eq!(extract_prefix_from_subnet("10.19.11.0/24").unwrap(), 24);
    assert_eq!(extract_prefix_from_subnet("10.19.11.0").unwrap_err(), "Invalid subnet format: 10.19.11.0");
    assert_eq!(extract_prefix_from_subnet("10.19.11.0/x").unwrap_err(), "Invalid subnet prefix: x");
    let text = interface_config_text(&iface("wg1", "10.19.12.0/24", "10.19.12.1", 51821, true), 24, "eth0");
    assert_eq!(
        text,
        "[Interface]\nPrivateKey = priv\nAddress = 10.19.12.1/24\nListenPort = 51821\nPostUp = iptables -A FORWARD -i wg1 -j ACCEPT; iptables -A FORWARD -o wg1 -j ACCEPT; iptables -t nat -A POSTROUTING -o eth0 -j MASQUERADE\nPostDown = iptables -D FORWARD -i wg1 -j ACCEPT; iptables -D FORWARD -o wg1 -j ACCEPT; iptables -t nat -D POSTROUTING -o eth0 -j MASQUERADE\n"
    );
}

#[test]
fn public_interface_detection() {
    let routes = "default via 192.168.1.1 dev ens18 proto dhcp metric 100\n";
    assert_eq!(get_public_interface(routes, &vec![false; 4]).unwrap(), "ens18");
    assert_eq!(get_public_interface("", &vec![false, false, true, true]).unwrap(), "enp0s3");
    assert_eq!(
        get_public_interface("default via 1.2.3.4 dev", &vec![false; 4]).unwrap_err(),
        "Could not detect public network interface"
    );
}

#[test]
fn client_counts_and_menu_lines() {
    let conf = "### Client a\n[Peer]\n### Client b\n";
    assert_eq!(count_interface_clients(Some(conf)), 2);
    assert_eq!(count_interface_clients(None), 0);
    let i = iface("wg0", "10.19.11.0/24", "10.19.11.1", 51820, true);
    assert_eq!(
        interface_option("wg0", &i, 2, 256),
        "wg0 (10.19.11.0/24) - Port: 51820 - Clients: 2/252 available"
    );
}

#[test]
fn choosing_the_interface_for_a_client() {
    let mut config = MultiInterfaceConfig::new();
    assert_eq!(
        client_interface_choice(&config).unwrap_err(),
        "No interfaces configured. Please create an interface first."
    );
    config.interfaces.insert("wg0".to_string(), iface("wg0", "10.19.11.0/24", "10.19.11.1", 51820, false));
    assert_eq!(client_interface_choice(&config).unwrap_err(), "No active interfaces available");
    config.interfaces.insert("wg1".to_string(), iface("wg1", "10.19.12.0/24", "10.19.12.1", 51821, true));
    assert_eq!(client_interface_choice(&config).unwrap(), Some("wg1".to_string()));
    config.interfaces.insert("wg2".to_string(), iface("wg2", "10.19.13.0/24", "10.19.13.1", 51822, true));
    assert_eq!(client_interface_choice(&config).unwrap(), None);
}

// ----- the parameters file and clients -----

#[test]
fn parameters_file_reads_back() {
    let a = sample_answers();
    let text = params_file_text(&a);
    assert_eq!(
        text,
        "SERVER_PUB_IP=203.0.113.7\nSERVER_PUB_NIC=eth0\nSERVER_WG_NIC=wg0\nSERVER_WG_IPV4=10.19.11.1\nSERVER_WG_IPV6=\nSERVER_PORT=51820\nSERVER_PRIV_KEY=cHJpdmF0ZQ==\nSERVER_PUB_KEY=cHVibGlj\nCLIENT_DNS_1=1.1.1.1\nCLIENT_DNS_2=1.0.0.1\nALLOWED_IPS=0.0.0.0/0"
    );
    let p = parse_wireguard_params(&text).unwrap();
    assert_eq!(p.server_pub_nic, "eth0");
    assert_eq!(p.server_wg_nic, "wg0");
    assert_eq!(p.server_wg_ipv4.octets(), [10, 19, 11, 1]);
    assert_eq!(p.server_wg_ipv6, None);
    assert_eq!(p.server_port, 51820);
    assert_eq!(p.server_priv_key, "cHJpdmF0ZQ==");
    assert_eq!(p.server_pub_key, "cHVibGlj");
    assert_eq!(p.client_dns_1.octets(), [1, 1, 1, 1]);
    assert_eq!(p.client_dns_2.octets(), [1, 0, 0, 1]);
    assert_eq!(p.allowed_ips, "0.0.0.0/0");
}

#[test]
fn parameters_file_errors() {
    assert_eq!(
        parse_shell_vars("A=1\nnot an assignment\n").err().unwrap(),
        "Invalid format at line 2: not an assignment"
    );
    let vars = parse_shell_vars("# comment\nA = ${B}\nA=2\n\nC=  \n").ok().unwrap();
    assert_eq!(get_required_var(&vars, "A").unwrap(), "2");
    assert_eq!(get_required_var(&vars, "Z").unwrap_err(), "Missing required parameter: Z");
    assert_eq!(get_optional_var(&vars, "C"), None);
    assert_eq!(
        parse_wireguard_params("SERVER_PUB_NIC=eth0\n").err().unwrap(),
        "Missing required parameter: SERVER_WG_NIC"
    );
    let bad = "SERVER_PUB_NIC=eth0\nSERVER_WG_NIC=wg0\nSERVER_WG_IPV4=10.1.1\n";
    assert_eq!(
        parse_wireguard_params(bad).err().unwrap(),
        "Invalid SERVER_WG_IPV4: invalid IPv4 address syntax"
    );
}

#[test]
fn the_last_assignment_of_a_parameter_wins() {
    let vars = parse_shell_vars("A=1\nB=x\n# A=9\nA = 3\n").ok().unwrap();
    assert_eq!(vars.get("A").unwrap(), "3");
    assert_eq!(vars.get("B").unwrap(), "x");
    assert_eq!(vars.get("C"), None);
    assert_eq!(
        parse_shell_vars("A=1\n\n# note\nbroken\nalso broken\n").err().unwrap(),
        "Invalid format at line 4: broken"
    );
    let old = parse_old_params("SERVER_PUB_NIC=eth0\nSERVER_PUB_NIC= \"eth1\" \n");
    assert_eq!(old.get("SERVER_PUB_NIC").unwrap(), "eth1");
}

#[test]
fn the_first_missing_or_unreadable_parameter_is_reported() {
    let full = params_file_text(&sample_answers());
    let without_pub_key = full.replace("SERVER_PUB_KEY=cHVibGlj\n", "");
    assert_eq!(
        parse_wireguard_params(&without_pub_key).err().unwrap(),
        "Missing required parameter: SERVER_PUB_KEY"
    );
    let bad_port = full.replace("SERVER_PORT=51820", "SERVER_PORT=70000");
    assert!(parse_wireguard_params(&bad_port).err().unwrap().starts_with("Invalid SERVER_PORT: "));
    let bad_dns = full.replace("CLIENT_DNS_2=1.0.0.1", "CLIENT_DNS_2=one");
    assert_eq!(
        parse_wireguard_params(&bad_dns).err().unwrap(),
        "Invalid CLIENT_DNS_2: invalid IPv4 address syntax"
    );
    let without_wg_nic = full.replace("SERVER_WG_NIC=wg0\n", "");
    assert_eq!(
        read_old_params(&without_wg_nic).err().unwrap(),
        "Missing required parameter: SERVER_WG_NIC"
    );
    let without_allowed = full.replace("\nALLOWED_IPS=0.0.0.0/0", "");
    assert_eq!(read_old_params(&without_allowed).ok().unwrap().allowed_ips, "0.0.0.0/0");
}

#[test]
fn client_names_and_addresses() {
    assert!(check_client_name("phone-1", Some("### Client laptop\n")).is_ok());
    assert_eq!(
        check_client_name("bad name", None).unwrap_err(),
        "Invalid characters in client name. Use only alphanumeric characters, underscores, or dashes."
    );
    assert_eq!(
        check_client_name("abcdefghijklmnop", None).unwrap_err(),
        "Client name must be less than 16 characters."
    );
    assert_eq!(
        check_client_name("laptop", Some("### Client laptop\n")).unwrap_err(),
        "A client with the specified name was already created, please choose another name."
    );
    let server = ip("10.8.0.1");
    let conf = "AllowedIPs = 10.8.0.2/32\n";
    assert_eq!(find_available_ipv4(&server, conf).unwrap().to_dotted_string(), "10.8.0.3");
    assert_eq!(validate_ipv4_address("10.8.0.9", &server, Some(conf)).unwrap().octets(), [10, 8, 0, 9]);
    assert_eq!(validate_ipv4_address("x", &server, None).unwrap_err(), "Invalid IPv4 address format");
    assert_eq!(validate_ipv4_address("10.9.0.9", &server, None).unwrap_err(), "IP address must be in subnet 10.8.0.x");
    assert_eq!(validate_ipv4_address("10.8.0.1", &server, None).unwrap_err(), "Cannot use server's IP address");
    assert_eq!(validate_ipv4_address("10.8.0.2", &server, Some(conf)).unwrap_err(), "IP address 10.8.0.2 is already in use");
    assert_eq!(validate_ipv6_address("fd42::5", "fd42::1", None).unwrap(), "fd42::5");
    assert_eq!(validate_ipv6_address("fd42:5", "fd42::1", None).unwrap_err(), "Invalid IPv6 address format (must contain '::')");
    assert_eq!(validate_ipv6_address("fd43::5", "fd42::1", None).unwrap_err(), "IPv6 address must be in subnet fd42::x");
    assert_eq!(validate_ipv6_address("fd42::1", "fd42::1", None).unwrap_err(), "Cannot use server's IPv6 address");
    assert_eq!(find_available_ipv6(Some("fd42::1"), Some("fd42::2/128")), Some("fd42::3".to_string()));
    assert_eq!(find_available_ipv6(None, None), None);
    assert_eq!(ipv6_subnet_label("fd42:42:42::1"), "fd42:42:42");
    assert_eq!(ipv6_subnet_label("fd42:1"), "invalid");
    assert_eq!(check_allowed_ips(" 10.0.0.0/8,192.168.0.0/16 ").unwrap(), "10.0.0.0/8,192.168.0.0/16");
    assert!(check_allowed_ips("   ").is_err());
    assert!(check_allowed_ips("10.0.0.0/").is_err());
}

#[test]
fn endpoint_and_client_files() {
    assert_eq!(format_endpoint("203.0.113.7", 51820), "203.0.113.7:51820");
    assert_eq!(format_endpoint("2001:db8::1", 51820), "[2001:db8::1]:51820");
    assert_eq!(format_endpoint("[2001:db8::1]", 51820), "[2001:db8::1]:51820");
    assert_eq!(client_config_file_name("wg0", "phone"), "wg0-client-phone.conf");
    let p = parse_wireguard_params(&params_file_text(&sample_answers())).unwrap();
    let c = client("phone", "10.19.11.2", Some("fd42::2"));
    let text = client_config_text(&c, &p, Some("203.0.113.7"));
    assert_eq!(
        text,
        "[Interface]\nPrivateKey = cpriv\nAddress = 10.19.11.2/32,fd42::2/128\nDNS = 1.1.1.1,1.0.0.1\n\n# Uncomment the next line to set a custom MTU\n# This might impact performance, so use it only if you know what you are doing\n# See https://github.com/nitred/nr-wg-mtu-finder to find your optimal MTU\n# MTU = 1420\n\n[Peer]\nPublicKey = cHVibGlj\nPresharedKey = cpsk\nEndpoint = 203.0.113.7:51820\nAllowedIPs = 0.0.0.0/0"
    );
    assert_eq!(
        server_peer_block(&c),
        "\n### Client phone\n[Peer]\nPublicKey = cpub\nPresharedKey = cpsk\nAllowedIPs = 10.19.11.2/32,fd42::2/128"
    );
}

#[test]
fn added_client_is_listed_and_removed_client_is_gone() {
    let config = "[Interface]\nAddress = 10.19.11.1/24\n\n### Client laptop\n[Peer]\nPublicKey = k\n";
    let with_phone = format!("{}{}", config, server_peer_block(&client("phone", "10.19.11.3", None)));
    assert_eq!(extract_client_names(&with_phone), vec!["laptop".to_string(), "phone".to_string()]);
    let removed = remove_client_from_config(&with_phone, "phone");
    assert_eq!(extract_client_names(&removed), vec!["laptop".to_string()]);
    let removed = remove_client_from_config(&with_phone, "laptop");
    assert_eq!(extract_client_names(&removed), vec!["phone".to_string()]);
    assert!(!removed.contains("### Client laptop"));
}

#[test]
fn qr_code_and_revocation() {
    let qr = qr_code_text("[Interface]\nPrivateKey = x\n").unwrap();
    assert!(qr.contains('█') || qr.contains('▀') || qr.contains('▄'));
    assert_ne!(qr, "[Interface]\nPrivateKey = x\n");
    assert_eq!(revocation_outcome(3, 0), RevocationOutcome::Revoked);
    assert_eq!(revocation_outcome(0, 2), RevocationOutcome::Failed);
    assert_eq!(revocation_outcome(1, 1), RevocationOutcome::PartiallyRevoked);
}

// ----- installation -----

#[test]
fn install_texts() {
    let a = sample_answers();
    assert_eq!(
        server_config_text(&a, FirewallType::Iptables),
        "[Interface]\nAddress = 10.19.11.1/24\nListenPort = 51820\nPrivateKey = cHJpdmF0ZQ==\nPostUp = iptables -I INPUT -p udp --dport 51820 -j ACCEPT\nPostUp = iptables -I FORWARD -i eth0 -o wg0 -j ACCEPT\nPostUp = iptables -I FORWARD -i wg0 -j ACCEPT\nPostUp = iptables -t nat -A POSTROUTING -o eth0 -j MASQUERADE\nPostDown = iptables -D INPUT -p udp --dport 51820 -j ACCEPT\nPostDown = iptables -D FORWARD -i eth0 -o wg0 -j ACCEPT\nPostDown = iptables -D FORWARD -i wg0 -j ACCEPT\nPostDown = iptables -t nat -D POSTROUTING -o eth0 -j MASQUERADE\n"
    );
    assert_eq!(
        server_config_text(&a, FirewallType::Firewalld),
        "[Interface]\nAddress = 10.19.11.1/24\nListenPort = 51820\nPrivateKey = cHJpdmF0ZQ==\nPostUp = firewall-cmd --zone=public --add-interface=wg0 && firewall-cmd --add-port 51820/udp && firewall-cmd --add-rich-rule='rule family=ipv4 source address=10.19.11.0/24 masquerade'\nPostDown = firewall-cmd --zone=public --remove-interface=wg0 && firewall-cmd --remove-port 51820/udp && firewall-cmd --remove-rich-rule='rule family=ipv4 source address=10.19.11.0/24 masquerade'\n"
    );
}

#[test]
fn install_commands_per_distribution() {
    assert_eq!(
        install_commands(OsType::Ubuntu, "22.04").unwrap(),
        vec!["apt-get update", "apt-get install -y wireguard iptables resolvconf qrencode"]
    );
    assert_eq!(install_commands(OsType::Fedora, "39").unwrap(), vec!["dnf install -y wireguard-tools iptables qrencode"]);
    assert_eq!(install_commands(OsType::Fedora, "32").unwrap(), vec!["dnf install -y wireguard-tools iptables qrencode"]);
    assert_eq!(install_commands(OsType::Fedora, "31").unwrap(), vec!["dnf install -y wireguard-tools iptables qrencode"]);
    assert_eq!(
        install_commands(OsType::Rocky, "8.9").unwrap(),
        vec![
            "yum install -y epel-release elrepo-release",
            "yum install -y kmod-wireguard wireguard-tools iptables qrencode",
        ]
    );
    assert_eq!(install_commands(OsType::Rocky, "9.3").unwrap(), vec!["yum install -y wireguard-tools iptables"]);
    assert_eq!(install_commands(OsType::Unknown, ""), None);
}

#[test]
fn initial_configuration_and_migration() {
    let config = create_initial_multi_interface_config(&sample_answers(), "2026-01-25T10:00:00Z");
    assert_eq!(config.next_suggested_port, 51821);
    assert_eq!(config.interfaces.get("wg0").unwrap().subnet, "10.19.11.0/24");
    assert!(needs_migration(true, false));
    assert!(!needs_migration(true, true));
    assert!(!needs_migration(false, false));
    let old = read_old_params(&params_file_text(&sample_answers())).ok().unwrap();
    assert_eq!(old.server_pub_ip.octets(), [203, 0, 113, 7]);
    assert_eq!(old.allowed_ips, "0.0.0.0/0");
    let migrated = migrated_config(&old);
    let wg0 = migrated.interfaces.get("wg0").unwrap();
    assert_eq!(wg0.subnet, "10.19.11.0/24");
    assert_eq!(wg0.created_at, "migrated");
    assert_eq!(migrated.next_suggested_port, 51821);
}

#[test]
fn old_parameters_are_read_leniently() {
    let text = "SERVER_PUB_IP=\"1.2.3.4\"\nSERVER_PUB_NIC='eth0'\n junk line\nSERVER_WG_NIC=wg0\nSERVER_WG_IPV4=10.0.0.1\nSERVER_PORT=51820\nSERVER_PRIV_KEY=a\nSERVER_PUB_KEY=b\nCLIENT_DNS_1=1.1.1.1\nCLIENT_DNS_2=8.8.8.8\n";
    let old = read_old_params(text).ok().unwrap();
    assert_eq!(old.server_pub_ip.octets(), [1, 2, 3, 4]);
    assert_eq!(old.server_pub_nic, "eth0");
    assert_eq!(old.allowed_ips, "0.0.0.0/0");
    assert_eq!(
        read_old_params("SERVER_PUB_IP=1.2.3\n").err().unwrap(),
        "Invalid IP address for SERVER_PUB_IP: 1.2.3"
    );
    let vars = parse_old_params("SERVER_PORT=99999\n");
    assert_eq!(parse_port(&vars, "SERVER_PORT").unwrap_err(), "Invalid port number for SERVER_PORT: 99999");
    assert_eq!(parse_port(&vars, "X").unwrap_err(), "Missing required parameter: X");
}

#[test]
fn addresses_offered_for_the_server() {
    assert_eq!(classify_ipv4_address(&ip("127.0.0.1")), None);
    assert_eq!(classify_ipv4_address(&ip("169.254.3.4")), None);
    assert_eq!(classify_ipv4_address(&ip("192.168.1.5")), Some(IpAddressType::Private));
    assert_eq!(classify_ipv4_address(&ip("203.0.113.7")), Some(IpAddressType::Public));
    assert_eq!(format_ip_display(&ip("203.0.113.7"), "eth0", IpAddressType::Public), "203.0.113.7 (eth0) [Public]");
    let found = vec![
        (ip("192.168.1.5"), "eth1".to_string()),
        (ip("127.0.0.1"), "lo".to_string()),
        (ip("203.0.113.9"), "eth0".to_string()),
        (ip("10.0.0.2"), "eth2".to_string()),
        (ip("203.0.113.7"), "eth0".to_string()),
    ];
    let offers = order_address_offers(&found);
    let order: Vec<String> = offers.iter().map(|o| o.ip.to_dotted_string()).collect();
    assert_eq!(order, vec!["203.0.113.7", "203.0.113.9", "10.0.0.2", "192.168.1.5"]);
}

#[test]
fn keys_and_answers() {
    let out = KeyCommandOutput { success: true, stdout: Ok("  abc=\n".to_string()), stderr: String::new() };
    assert_eq!(key_from_output(&out, "wg genkey failed: ", true, "Failed to parse private key: ").unwrap(), "abc=");
    let failed = KeyCommandOutput { success: false, stdout: Ok(String::new()), stderr: "boom".to_string() };
    assert_eq!(key_from_output(&failed, "wg genkey failed: ", true, "x").unwrap_err(), "wg genkey failed: boom");
    assert_eq!(key_from_output(&failed, "wg genkey command failed", false, "x").unwrap_err(), "wg genkey command failed");
    assert_eq!(
        create_pub_priv_keys(Ok("k".to_string()), Some(Ok("p".to_string()))).unwrap(),
        ("k".to_string(), "p".to_string())
    );
    assert_eq!(
        create_pub_priv_keys(Err("e".to_string()), None).unwrap_err(),
        "Failed to generate private key: e"
    );
    assert_eq!(
        create_pub_priv_keys(Ok("k".to_string()), Some(Err("e".to_string()))).unwrap_err(),
        "Failed to generate public key: e"
    );
    let a = build_install_answers(
        "203.0.113.7",
        None,
        "eth0".to_string(),
        "wg0".to_string(),
        "10.19.11.0/24".to_string(),
        "51820",
        "1.1.1.1",
        "1.0.0.1",
        "0.0.0.0/0".to_string(),
    )
    .unwrap();
    assert_eq!(a.server_wg_ip.octets(), [10, 19, 11, 1]);
    assert_eq!(a.server_wg_subnet, "10.19.11.0/24");
    assert_eq!(a.server_pub_ip.octets(), [203, 0, 113, 7]);
    assert_eq!(a.server_wg_port, 51820);
    assert_eq!(a.allowed_ips, "0.0.0.0/0");
    let refused = build_install_answers(
        "203.0.113.7",
        None,
        "eth0".to_string(),
        "wg0".to_string(),
        "8.8.8.0/24".to_string(),
        "51820",
        "1.1.1.1",
        "1.0.0.1",
        "0.0.0.0/0".to_string(),
    );
    assert_eq!(
        refused.err().unwrap(),
        "Subnet must be within private network ranges (10.0.0.0/8, 172.16.0.0/12, 192.168.0.0/16)"
    );
    assert_eq!(a.client_dns_2.octets(), [1, 0, 0, 1]);
    assert!(a.server_priv_key.is_empty());
}

#[test]
fn default_route_and_primary_interface() {
    let names = vec!["lo".to_string(), "en0".to_string(), "eth0".to_string()];
    let route = "   route to: default\ndestination: default\n  interface: en0\n";
    assert_eq!(find_default_route_interface(Some(route), None, &names).unwrap(), "en0");
    let netstat = "Kernel IP routing table\n0.0.0.0         192.168.1.1     0.0.0.0         UG        0 0          0 eth0\n";
    assert_eq!(find_default_route_interface(None, Some(netstat), &names).unwrap(), "eth0");
    let none = find_default_route_interface(Some("interface: wlan9\n"), None, &names);
    assert_eq!(none.clone().unwrap_err(), "Could not determine default route interface");
    assert_eq!(detect_primary_interface(&none, &names).unwrap(), "eth0");
    assert_eq!(
        detect_primary_interface(&none, &vec!["lo".to_string()]).unwrap_err(),
        "Could not detect any suitable network interface"
    );
}

// ----- distributions, services and uninstalling -----

#[test]
fn distributions_by_name() {
    assert_eq!(get_os("Ubuntu"), OsType::Ubuntu);
    assert_eq!(get_os("Debian GNU/Linux"), OsType::Debian);
    assert_eq!(get_os("Rocky Linux"), OsType::Rocky);
    assert_eq!(get_os("Arch Linux"), OsType::Arch);
    assert_eq!(get_os("Solaris"), OsType::Unknown);
    let (os, v) = get_os_with_version("Fedora Linux", "39");
    assert_eq!(os, OsType::Fedora);
    assert_eq!(v.major_version, 39);
    assert_eq!(v.minor_version, None);
    let v = VersionInfo::new("8.10");
    assert_eq!((v.major_version, v.minor_version), (8, Some(10)));
    assert_eq!(VersionInfo::new("rolling").major_version, 0);
}

#[test]
fn service_steps() {
    let steps = service_setup_steps(OsType::Ubuntu, "wg0");
    assert_eq!(steps.len(), 3);
    assert_eq!(steps[1].command, vec!["systemctl", "start", "wg-quick@wg0"]);
    assert_eq!(service_setup_steps(OsType::Fedora, "wg0").len(), 5);
    assert_eq!(service_setup_steps(OsType::Alpine, "wg0")[2].command[3], "/etc/init.d/wg-quick.wg0");
    let ok = Ok(CommandStatus { success: true, stderr: String::new() });
    match step_result(&steps[1], &ok) {
        StepResult::Note(n) => assert_eq!(n, "WireGuard service 'wg-quick@wg0' started successfully"),
        other => panic!("unexpected {:?}", other),
    }
    let failed = Ok(CommandStatus { success: false, stderr: "x".to_string() });
    match step_result(&steps[0], &failed) {
        StepResult::Warning(w) => assert_eq!(w, "Warning: Failed to reload sysctl configuration"),
        other => panic!("unexpected {:?}", other),
    }
    let (enable, done) = enable_interface_steps(InitSystem::Systemd, "wg1").unwrap();
    assert_eq!(done, "✅ Interface wg1 enabled and started (systemd)");
    match step_result(&enable[0], &failed) {
        StepResult::Stop(e) => assert_eq!(e, "Failed to enable interface wg1: x"),
        other => panic!("unexpected {:?}", other),
    }
    assert_eq!(
        enable_interface_steps(InitSystem::Neither, "wg1").err().unwrap(),
        "No supported init system found (systemd or OpenRC required)"
    );
}

#[test]
fn uninstall_decisions() {
    assert!(service_command_outcome(false, "Unit wg-quick@wg0.service not loaded.", "Failed to stop WireGuard service: ").is_ok());
    assert_eq!(
        service_command_outcome(false, "boom", "Failed to stop WireGuard service: ").unwrap_err(),
        "Failed to stop WireGuard service: boom"
    );
    assert!(package_removal_outcome(false, "Package 'wireguard' is not installed").is_ok());
    assert_eq!(package_removal_outcome(false, "E: lock").unwrap_err(), "Failed to remove packages: E: lock");
    let plan = removal_plan(OsType::Fedora, 31).ok().unwrap();
    assert_eq!(plan.after.len(), 2);
    assert_eq!(removal_plan(OsType::Rocky, 8).ok().unwrap().after[0][4], "kmod-wireguard");
    assert_eq!(removal_plan(OsType::Unknown, 0).err().unwrap(), "Unsupported OS type: Unknown");
    assert!(uninstall_verdict(false, false).is_ok());
    assert_eq!(
        uninstall_verdict(true, false).unwrap_err(),
        "WireGuard service is still running - uninstall may have failed"
    );
}

#[test]
fn management_menu() {
    assert_eq!(menu_options().len(), 8);
    assert_eq!(menu_action(0), MenuAction::AddClient);
    assert_eq!(menu_action(6), MenuAction::Uninstall);
    assert_eq!(menu_action(9), MenuAction::Invalid);
}

#[test]
fn revoking_the_added_client_gives_back_the_configuration() {
    let config = "[Interface]\nAddress = 10.19.11.1/24\n\n### Client laptop\n[Peer]\nPublicKey = k\n";
    let added = format!("{}{}", config, server_peer_block(&client("phone", "10.19.11.3", Some("fd42::3"))));
    assert_eq!(remove_client_from_config(&added, "phone"), config.trim_end());
    let bare = "[Interface]\nAddress = 10.19.11.1/24";
    let added = format!("{}{}", bare, server_peer_block(&client("tablet", "10.19.11.4", None)));
    assert_eq!(remove_client_from_config(&added, "tablet"), bare);
}

#[test]
fn revoking_the_earlier_of_two_added_clients_keeps_the_later() {
    let config = "[Interface]\nAddress = 10.19.11.1/24\n";
    let phone = server_peer_block(&client("phone", "10.19.11.3", Some("fd42::3")));
    let tablet = server_peer_block(&client("tablet", "10.19.11.4", None));
    let both = format!("{}{}{}", config, phone, tablet);
    let only_tablet = format!("{}{}", config, tablet);
    assert_eq!(remove_client_from_config(&both, "phone"), only_tablet.trim_end());
    assert!(remove_client_from_config(&both, "phone").contains("### Client tablet\n[Peer]"));
    assert!(!remove_client_from_config(&both, "phone").contains("phone"));
}

#[test]
fn installation_parameters_migrate_to_the_same_settings() {
    let a = sample_answers();
    let old = read_old_params(&params_file_text(&a)).ok().unwrap();
    assert_eq!(old.server_pub_ip, a.server_pub_ip);
    assert_eq!(old.server_pub_nic, a.server_public_nic);
    assert_eq!(old.server_wg_nic, a.server_wg_nic);
    assert_eq!(old.server_wg_ipv4, a.server_wg_ip);
    assert_eq!(old.server_port, a.server_wg_port);
    assert_eq!(old.server_priv_key, a.server_priv_key);
    assert_eq!(old.server_pub_key, a.server_pub_key);
    assert_eq!(old.client_dns_1, a.client_dns_1);
    assert_eq!(old.client_dns_2, a.client_dns_2);
    assert_eq!(old.allowed_ips, a.allowed_ips);
}

#[test]
fn suggestions_pass_the_rules() {
    let mut config = MultiInterfaceConfig::new();
    config.interfaces.insert("wg0".to_string(), iface("wg0", "10.19.11.0/24", "10.19.11.1", 51820, true));
    let name = config.get_next_interface_name();
    assert!(check_new_interface_name(&config, &name).is_ok());
    let existing = config.interfaces.ports();
    let listing = "udp UNCONN 0 0 0.0.0.0:51821 0.0.0.0:*\n";
    let port = wireguard_install::network::suggest_available_port(&existing, 51820, listing);
    assert_eq!(port, 51822);
    assert_eq!(check_interface_port(&port.to_string(), &existing, listing).unwrap(), port);
}

#[test]
fn client_list_counts_and_numbers() {
    let one = client_list_lines(&vec!["laptop".to_string()]);
    assert_eq!(one, vec!["Found 1 client:", "  1) laptop"]);
    let two = client_list_lines(&vec!["laptop".to_string(), "phone".to_string()]);
    assert_eq!(two, vec!["Found 2 clients:", "  1) laptop", "  2) phone"]);
}
