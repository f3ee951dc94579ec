use wireguard_install::client::remove_client_from_config;
use wireguard_install::ipv4::parse_ipv4_str;
use wireguard_install::migration::determine_subnet_from_ip;
use wireguard_install::models::{InterfaceConfig, MultiInterfaceConfig};
use wireguard_install::network::{
    get_server_ip_from_subnet, is_private_network, suggest_available_port, validate_subnet, Ipv4Net,
};

#[test]
fn test_determine_subnet_from_ip() {
    let ip = parse_ipv4_str("10.19.11.1").unwrap();
    assert_eq!(determine_subnet_from_ip(&ip), "10.19.11.0/24");

    let ip = parse_ipv4_str("172.16.50.1").unwrap();
    assert_eq!(determine_subnet_from_ip(&ip), "172.16.50.0/24");

    let ip = parse_ipv4_str("192.168.100.1").unwrap();
    assert_eq!(determine_subnet_from_ip(&ip), "192.168.100.0/24");
}

#[test]
fn test_validate_subnet() {
    assert!(validate_subnet("10.19.0.0/24").is_ok());
    assert!(validate_subnet("172.16.50.0/28").is_ok());
    assert!(validate_subnet("192.168.100.0/16").is_ok());

    assert!(validate_subnet("8.8.8.0/24").is_err()); // Public IP
    assert!(validate_subnet("10.0.0.0/31").is_err()); // Too small
    assert!(validate_subnet("invalid").is_err()); // Invalid format
}

#[test]
fn test_get_server_ip_from_subnet() {
    assert_eq!(
        get_server_ip_from_subnet("10.19.11.0/24").unwrap(),
        parse_ipv4_str("10.19.11.1").unwrap()
    );

    assert_eq!(
        get_server_ip_from_subnet("172.16.50.0/28").unwrap(),
        parse_ipv4_str("172.16.50.1").unwrap()
    );
}

#[test]
fn test_is_private_network() {
    assert!(is_private_network(&Ipv4Net::parse("10.0.0.0/24").unwrap()));
    assert!(is_private_network(&Ipv4Net::parse("172.16.0.0/24").unwrap()));
    assert!(is_private_network(&Ipv4Net::parse("192.168.1.0/24").unwrap()));
    assert!(!is_private_network(&Ipv4Net::parse("8.8.8.0/24").unwrap()));
}

#[test]
fn test_subnet_validation() {
    // Test valid subnets
    assert!(validate_subnet("10.19.0.0/16").is_ok());
    assert!(validate_subnet("172.16.50.0/24").is_ok());
    assert!(validate_subnet("192.168.100.0/28").is_ok());

    // Test invalid subnets
    assert!(validate_subnet("8.8.8.0/24").is_err()); // Public IP
    assert!(validate_subnet("10.0.0.0/31").is_err()); // Too small
    assert!(validate_subnet("invalid").is_err()); // Invalid format
}

#[test]
fn test_server_ip_extraction() {
    let subnet = "10.19.11.0/24";
    let server_ip = get_server_ip_from_subnet(subnet).unwrap();
    assert_eq!(server_ip.to_dotted_string(), "10.19.11.1");

    let subnet = "172.16.50.0/28";
    let server_ip = get_server_ip_from_subnet(subnet).unwrap();
    assert_eq!(server_ip.to_dotted_string(), "172.16.50.1");
}

#[test]
fn test_port_suggestion() {
    let used_ports = vec![51820, 51821, 51823];
    let suggested = suggest_available_port(&used_ports, 51820, "");
    assert_eq!(suggested, 51822); // Should suggest next available

    let no_used_ports: Vec<u16> = vec![];
    let suggested = suggest_available_port(&no_used_ports, 51820, "");
    assert_eq!(suggested, 51820); // Should suggest starting port
}

#[test]
fn test_multi_interface_config_creation() {
    let config = MultiInterfaceConfig::new();
    assert_eq!(config.interfaces.len(), 0);
    assert_eq!(config.next_suggested_port, 51820);
    assert_eq!(config.global_settings.dns_servers.len(), 2);
}

#[test]
fn test_interface_name_suggestion() {
    let config = MultiInterfaceConfig::new();
    let suggested = config.get_next_interface_name();
    assert_eq!(suggested, "wg0");

    // Test with existing interfaces
    let mut config_with_interfaces = MultiInterfaceConfig::new();
    config_with_interfaces.interfaces.insert(
        "wg0".to_string(),
        InterfaceConfig {
            name: "wg0".to_string(),
            subnet: "10.19.11.0/24".to_string(),
            server_ip: parse_ipv4_str("10.19.11.1").unwrap(),
            port: 51820,
            private_key: "test_key".to_string(),
            public_key: "test_pub_key".to_string(),
            created_at: "2026-01-25T10:00:00Z".to_string(),
            active: true,
        },
    );

    let suggested = config_with_interfaces.get_next_interface_name();
    assert_eq!(suggested, "wg1");
}

#[test]
fn test_remove_client_from_config_single_client() {
    let config_content = r#"[Interface]
Address = 10.8.0.1/24
PrivateKey = server_private_key_here

### Client target-client
[Peer]
PublicKey = target_client_public_key
PresharedKey = target_client_preshared_key
AllowedIPs = 10.8.0.2/32
"#;

    let expected_content = r#"[Interface]
Address = 10.8.0.1/24
PrivateKey = server_private_key_here"#;

    let result_content = remove_client_from_config(config_content, "target-client");
    assert_eq!(result_content.trim(), expected_content.trim());
}

#[test]
fn test_remove_client_from_config_multiple_clients_with_empty_lines() {
    let config_content = r#"[Interface]
Address = 10.8.0.1/24
PrivateKey = server_private_key_here

### Client client1
[Peer]
PublicKey = client1_public_key
PresharedKey = client1_preshared_key
AllowedIPs = 10.8.0.2/32

### Client target-client
[Peer]
PublicKey = target_client_public_key
PresharedKey = target_client_preshared_key
AllowedIPs = 10.8.0.3/32

### Client client3
[Peer]
PublicKey = client3_public_key
PresharedKey = client3_preshared_key
AllowedIPs = 10.8.0.4/32
"#;

    let expected_content = r#"[Interface]
Address = 10.8.0.1/24
PrivateKey = server_private_key_here

### Client client1
[Peer]
PublicKey = client1_public_key
PresharedKey = client1_preshared_key
AllowedIPs = 10.8.0.2/32


### Client client3
[Peer]
PublicKey = client3_public_key
PresharedKey = client3_preshared_key
AllowedIPs = 10.8.0.4/32"#;

    let result_content = remove_client_from_config(config_content, "target-client");
    assert_eq!(result_content.trim(), expected_content.trim());
}

#[test]
fn test_remove_client_from_config_multiple_clients_no_empty_lines() {
    let config_content = r#"[Interface]
Address = 10.8.0.1/24
PrivateKey = server_private_key_here
### Client client1
[Peer]
PublicKey = client1_public_key
PresharedKey = client1_preshared_key
AllowedIPs = 10.8.0.2/32
### Client target-client
[Peer]
PublicKey = target_client_public_key
PresharedKey = target_client_preshared_key
AllowedIPs = 10.8.0.3/32
### Client client3
[Peer]
PublicKey = client3_public_key
PresharedKey = client3_preshared_key
AllowedIPs = 10.8.0.4/32
"#;

    let expected_content = r#"[Interface]
Address = 10.8.0.1/24
PrivateKey = server_private_key_here
### Client client1
[Peer]
PublicKey = client1_public_key
PresharedKey = client1_preshared_key
AllowedIPs = 10.8.0.2/32
### Client client3
[Peer]
PublicKey = client3_public_key
PresharedKey = client3_preshared_key
AllowedIPs = 10.8.0.4/32"#;

    let result_content = remove_client_from_config(config_content, "target-client");
    assert_eq!(result_content.trim(), expected_content.trim());
}

#[test]
fn test_remove_client_from_config_client_not_found() {
    let config_content = r#"[Interface]
Address = 10.8.0.1/24
PrivateKey = server_private_key_here

### Client client1
[Peer]
PublicKey = client1_public_key
PresharedKey = client1_preshared_key
AllowedIPs = 10.8.0.2/32
"#;

    let result_content = remove_client_from_config(config_content, "nonexistent-client");
    assert_eq!(result_content.trim(), config_content.trim());
}
