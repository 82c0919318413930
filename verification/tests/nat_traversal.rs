use ippan::nat_traversal::{
    parse_ssdp_response, parse_stun_response, parse_xor_mapped_address, soap_add_port_mapping, stun_binding_request,
    stun_response_overruns, IpAddress, NATService, NATType, StunError,
};

#[test]
fn test_nat_service_creation() {
    let service = NATService::new();

    assert_eq!(service.nat_type, NATType::Unknown);
    assert!(!service.upnp_enabled);
    assert!(!service.stun_servers.is_empty());
}

#[test]
fn test_nat_service_start_stop() {
    let mut service = NATService::new();

    service.start().unwrap();
    assert!(service.running);

    service.stop().unwrap();
    assert!(!service.running);
}

#[test]
fn test_upnp_control() {
    let mut service = NATService::new();

    assert!(!service.is_upnp_enabled());

    service.enable_upnp();
    assert!(service.is_upnp_enabled());

    service.disable_upnp();
    assert!(!service.is_upnp_enabled());
}

#[test]
fn test_stun_server_management() {
    let mut service = NATService::new();

    let initial_count = service.get_stun_servers().len();

    service.add_stun_server("stun.example.com:3478".to_string());

    assert_eq!(service.get_stun_servers().len(), initial_count + 1);
}

fn success_response(attr: &[u8]) -> Vec<u8> {
    let mut d = vec![0x01, 0x01, 0x00, (4 + attr.len()) as u8, 0x21, 0x12, 0xA4, 0x42];
    d.extend_from_slice(&[9u8; 12]);
    d.extend_from_slice(&[0x00, 0x20, 0x00, attr.len() as u8]);
    d.extend_from_slice(attr);
    d
}

#[test]
fn stun_response_yields_the_masked_address() {
    let attr = [0x00, 0x01, 0x12, 0x34, 192 ^ 0x21, 168 ^ 0x12, 1 ^ 0xA4, 1 ^ 0x42];
    let d = success_response(&attr);
    assert!(!stun_response_overruns(&d));
    assert_eq!(parse_stun_response(&d), Ok(IpAddress::V4([192, 168, 1, 1])));
    assert_eq!(parse_xor_mapped_address(&attr, &[9u8; 12]), Ok(IpAddress::V4([192, 168, 1, 1])));
}

#[test]
fn xor_mapped_ipv4_uses_the_cookie_byte_by_byte() {
    let data = [0x00, 0x01, 0x00, 0x00, 0xE1, 0x12, 0xA6, 0x43];
    assert_eq!(parse_xor_mapped_address(&data, &[0u8; 12]), Ok(IpAddress::V4([192, 0, 2, 1])));
}

#[test]
fn xor_mapped_ipv6_uses_cookie_and_transaction_id() {
    let txid = [1u8, 2, 3, 4, 5, 6, 7, 8, 9, 10, 11, 12];
    let mut key = vec![0x21u8, 0x12, 0xA4, 0x42];
    key.extend_from_slice(&txid);
    let addr: [u8; 16] = [0x20, 0x01, 0x0d, 0xb8, 0, 0, 0, 0, 0, 0, 0, 0, 0, 0, 0, 1];
    let mut attr = vec![0x00, 0x02, 0x12, 0x34];
    attr.extend(addr.iter().zip(key.iter()).map(|(a, k)| a ^ k));
    assert_eq!(parse_xor_mapped_address(&attr, &txid), Ok(IpAddress::V6(addr)));
    let mut d = vec![0x01, 0x01, 0x00, 24, 0x21, 0x12, 0xA4, 0x42];
    d.extend_from_slice(&txid);
    d.extend_from_slice(&[0x00, 0x20, 0x00, 20]);
    d.extend_from_slice(&attr);
    assert_eq!(parse_stun_response(&d), Ok(IpAddress::V6(addr)));
}

#[test]
fn stun_errors_name_the_fault() {
    assert_eq!(parse_stun_response(&[0u8; 10]), Err(StunError::TooShort));
    let mut d = success_response(&[0x00, 0x01, 0, 0, 1, 2, 3, 4]);
    d[1] = 0x11;
    assert_eq!(parse_stun_response(&d), Err(StunError::UnexpectedMessageType(0x0111)));
    let mut d = success_response(&[0x00, 0x01, 0, 0, 1, 2, 3, 4]);
    d[4] = 0;
    assert_eq!(parse_stun_response(&d), Err(StunError::BadMagicCookie));
    assert_eq!(parse_xor_mapped_address(&[0, 1, 2], &[0u8; 12]), Err(StunError::MappedAddressTooShort));
    assert_eq!(parse_xor_mapped_address(&[0, 2, 0, 0, 1, 2, 3, 4], &[0u8; 12]), Err(StunError::Ipv6AddressTooShort));
    assert_eq!(parse_xor_mapped_address(&[0, 7, 0, 0, 1, 2, 3, 4], &[0u8; 12]), Err(StunError::UnsupportedFamily(7)));
    let mut header = vec![0x01, 0x01, 0x00, 0x00, 0x21, 0x12, 0xA4, 0x42];
    header.extend_from_slice(&[0u8; 12]);
    assert_eq!(parse_stun_response(&header), Err(StunError::NoMappedAddress));
}

#[test]
fn binding_request_layout() {
    let txid = [1u8, 2, 3, 4, 5, 6, 7, 8, 9, 10, 11, 12];
    let r = stun_binding_request(&txid);
    assert_eq!(&r[..8], &[0x00, 0x01, 0x00, 0x00, 0x21, 0x12, 0xA4, 0x42]);
    assert_eq!(&r[8..], &txid);
    assert_eq!(NATService::new().create_stun_binding_request().len(), 20);
}

#[test]
fn ssdp_location_is_read_from_the_reply() {
    let reply = "HTTP/1.1 200 OK\r\nCACHE-CONTROL: max-age=120\r\nLOCATION: http://192.168.1.1:5000/rootDesc.xml\r\n\r\n";
    let device = parse_ssdp_response(reply).unwrap();
    assert_eq!(device.control_url, "http://192.168.1.1:5000/rootDesc.xml");
    assert_eq!(device.device_type, "InternetGatewayDevice");
    assert!(parse_ssdp_response("HTTP/1.1 200 OK\r\n\r\n").is_none());
}

#[test]
fn port_mapping_request_names_the_ports() {
    let body = soap_add_port_mapping(8080, 9090, Some("10.0.0.2"));
    assert!(body.contains("<NewExternalPort>8080</NewExternalPort>"));
    assert!(body.contains("<NewInternalPort>9090</NewInternalPort>"));
    assert!(body.contains("10.0.0.2"));
}
