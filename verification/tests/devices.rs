use ssteq25_discover::device::{
    add_device_if_new, check_ip_outcome, collect_devices, config_url, device_for_hostname,
    device_type_for, device_type_for_lowercase, device_url, hostname_url, probe_next, DeviceInfo,
    ProbeAction, ProbeStep,
};
use ssteq25_discover::json::{connections_json, connections_or_empty, json_field, parse_previous_connections};
use ssteq25_discover::mdns::{handle_mdns_event, payload_ip, service_type, MdnsAction, MdnsEvent};

fn device(hostname: &str, ip: &str, kind: &str) -> DeviceInfo {
    DeviceInfo { hostname: hostname.to_string(), ip: ip.to_string(), device_type: kind.to_string() }
}

fn finished(action: ProbeAction) -> Option<DeviceInfo> {
    match action {
        ProbeAction::Finish(d) => d,
        _ => panic!("the probe is not over"),
    }
}

#[test]
fn device_type_for_looks_for_allsky_in_any_case() {
    assert_eq!(device_type_for("AllSky-Observatory"), "allsky");
    assert_eq!(device_type_for("ALLSKY"), "allsky");
    assert_eq!(device_type_for("sst-mount"), "sst");
    assert_eq!(device_type_for(""), "sst");
    assert_eq!(device_type_for("ÄLLSKY-Ö"), "sst");
    assert_eq!(device_type_for("Observatory-ALLSKY-Ö"), "allsky");
    assert_eq!(device_type_for_lowercase("ALLSKY"), "sst");
    assert_eq!(device_type_for_lowercase("my-allsky"), "allsky");
}

#[test]
fn device_for_hostname_names_the_device() {
    let d = device_for_hostname("10.0.0.7", "SSTEQ25-Mount");
    assert_eq!(d, device("SSTEQ25-Mount", "10.0.0.7", "sst"));
}

#[test]
fn urls_point_at_port_5000() {
    assert_eq!(device_url("10.0.0.7"), "http://10.0.0.7:5000");
    assert_eq!(hostname_url("10.0.0.7"), "http://10.0.0.7:5000/api/hostname");
    assert_eq!(config_url("10.0.0.7"), "http://10.0.0.7:5000/api/config");
}

#[test]
fn probe_unauthorized_is_allsky() {
    let d = finished(probe_next("10.0.0.8", ProbeStep::HostnameStatus(401))).unwrap();
    assert_eq!(d, device("allsky", "10.0.0.8", "allsky"));
}

#[test]
fn probe_success_reads_the_body() {
    assert!(matches!(probe_next("10.0.0.8", ProbeStep::HostnameStatus(200)), ProbeAction::ReadHostnameBody));
    assert!(matches!(probe_next("10.0.0.8", ProbeStep::HostnameStatus(204)), ProbeAction::ReadHostnameBody));
}

#[test]
fn probe_other_status_or_no_reply_falls_back() {
    assert!(matches!(probe_next("10.0.0.8", ProbeStep::HostnameStatus(404)), ProbeAction::RequestConfig));
    assert!(matches!(probe_next("10.0.0.8", ProbeStep::HostnameStatus(500)), ProbeAction::RequestConfig));
    assert!(matches!(probe_next("10.0.0.8", ProbeStep::HostnameUnreachable), ProbeAction::RequestConfig));
}

#[test]
fn probe_body_with_hostname_names_the_device() {
    let body = br#"{"hostname": "sst-mount-3", "version": 2}"#.to_vec();
    let d = finished(probe_next("10.0.0.9", ProbeStep::HostnameBody(Some(body)))).unwrap();
    assert_eq!(d, device("sst-mount-3", "10.0.0.9", "sst"));
    let body = br#"{"hostname": "AllSky-Roof"}"#.to_vec();
    let d = finished(probe_next("10.0.0.9", ProbeStep::HostnameBody(Some(body)))).unwrap();
    assert_eq!(d, device("AllSky-Roof", "10.0.0.9", "allsky"));
}

#[test]
fn probe_body_without_hostname_falls_back() {
    for body in [&br#"{"hostname": 5}"#[..], br#"{"name": "x"}"#, b"not json", br#"["hostname"]"#] {
        assert!(matches!(
            probe_next("10.0.0.9", ProbeStep::HostnameBody(Some(body.to_vec()))),
            ProbeAction::RequestConfig
        ));
    }
    assert!(matches!(probe_next("10.0.0.9", ProbeStep::HostnameBody(None)), ProbeAction::RequestConfig));
}

#[test]
fn probe_config_fallback() {
    let d = finished(probe_next("10.0.0.10", ProbeStep::ConfigReply(Some(200)))).unwrap();
    assert_eq!(d, device("allsky", "10.0.0.10", "allsky"));
    assert!(finished(probe_next("10.0.0.10", ProbeStep::ConfigReply(Some(401)))).is_none());
    assert!(finished(probe_next("10.0.0.10", ProbeStep::ConfigReply(None))).is_none());
}

#[test]
fn json_field_reads_strings_only() {
    assert_eq!(json_field(br#"{"hostname":"m1"}"#, "hostname"), Some("m1".to_string()));
    assert_eq!(json_field(br#"{"hostname":null}"#, "hostname"), None);
    assert_eq!(json_field(b"{", "hostname"), None);
}

#[test]
fn collect_devices_keeps_found_in_order() {
    let found = collect_devices(vec![
        Some(device("a", "10.0.0.1", "sst")),
        None,
        Some(device("b", "10.0.0.2", "allsky")),
    ]);
    assert_eq!(found.len(), 2);
    assert_eq!(found[0], device("a", "10.0.0.1", "sst"));
    assert_eq!(found[1], device("b", "10.0.0.2", "allsky"));
    assert!(collect_devices(vec![None, None]).is_empty());
}

#[test]
fn add_device_if_new_goes_by_address() {
    let mut devices = vec![device("a", "10.0.0.1", "sst")];
    assert!(!add_device_if_new(&mut devices, device("other", "10.0.0.1", "allsky")));
    assert_eq!(devices.len(), 1);
    assert_eq!(devices[0].hostname, "a");
    assert!(add_device_if_new(&mut devices, device("b", "10.0.0.2", "allsky")));
    assert_eq!(devices.len(), 2);
    assert_eq!(devices[1].ip, "10.0.0.2");
}

#[test]
fn check_ip_outcome_reports_unreachable() {
    match check_ip_outcome("10.0.0.3", None) {
        Err(message) => assert_eq!(message, "Unable to connect to 10.0.0.3"),
        Ok(_) => panic!("no device was found"),
    }
    let d = check_ip_outcome("10.0.0.4", Some(device("m", "10.0.0.4", "sst"))).unwrap();
    assert_eq!(d.hostname, "m");
}

#[test]
fn previous_connections_round_trip() {
    let ips = vec!["10.0.0.1".to_string(), "192.168.45.1".to_string()];
    let json = connections_json(&ips).unwrap();
    assert_eq!(json, r#"["10.0.0.1","192.168.45.1"]"#);
    assert_eq!(parse_previous_connections(&json), ips);
}

#[test]
fn previous_connections_otherwise_empty() {
    assert!(parse_previous_connections("").is_empty());
    assert!(parse_previous_connections("{\"a\": 1}").is_empty());
    assert!(parse_previous_connections("[1, 2]").is_empty());
    assert!(connections_or_empty(None).is_empty());
    assert_eq!(connections_or_empty(Some(vec!["x".to_string()])), vec!["x".to_string()]);
}

#[test]
fn mdns_resolved_announces_new_addresses_once() {
    let mut discovered = vec!["10.0.0.1".to_string()];
    let event = MdnsEvent::Resolved(vec!["10.0.0.1".to_string(), "10.0.0.2".to_string(), "10.0.0.2".to_string(), "fe80::1".to_string()]);
    match handle_mdns_event(&mut discovered, event) {
        MdnsAction::Continue(announce) => assert_eq!(announce, vec!["10.0.0.2".to_string(), "fe80::1".to_string()]),
        MdnsAction::Stop => panic!("the browser goes on"),
    }
    assert_eq!(discovered, vec!["10.0.0.1".to_string(), "10.0.0.2".to_string(), "fe80::1".to_string()]);
}

#[test]
fn mdns_other_events() {
    let mut discovered = vec!["10.0.0.1".to_string()];
    assert!(matches!(handle_mdns_event(&mut discovered, MdnsEvent::Removed("m._sstmount._tcp.local.".to_string())), MdnsAction::Continue(a) if a.is_empty()));
    assert!(matches!(handle_mdns_event(&mut discovered, MdnsEvent::Other), MdnsAction::Continue(a) if a.is_empty()));
    assert!(matches!(handle_mdns_event(&mut discovered, MdnsEvent::ReceiveError), MdnsAction::Stop));
    assert_eq!(discovered, vec!["10.0.0.1".to_string()]);
}

#[test]
fn payload_ip_strips_json_quotes() {
    assert_eq!(payload_ip("\"192.168.1.9\""), "192.168.1.9");
    assert_eq!(payload_ip("192.168.1.9"), "192.168.1.9");
}

#[test]
fn service_type_is_sstmount() {
    assert_eq!(service_type(), "_sstmount._tcp.local.");
}
