use ssteq25_discover::scan::{
    build_scan_targets, known_ips, open_addresses, progress_report, scan_failure, ScanPlan,
};
use ssteq25_discover::subnet::{
    enumerate_subnet_ips, get_local_subnets, subnet_size, Interface, Ipv4Assignment, Subnet,
};

fn ip(a: u32, b: u32, c: u32, d: u32) -> u32 {
    (a << 24) | (b << 16) | (c << 8) | d
}

#[test]
fn get_local_subnets_skips_loopback_and_other_kinds() {
    let ifaces = vec![
        Interface { is_loopback: true, ipv4: Some(Ipv4Assignment { ip: ip(127, 0, 0, 1), netmask: ip(255, 0, 0, 0) }) },
        Interface { is_loopback: false, ipv4: None },
        Interface { is_loopback: false, ipv4: Some(Ipv4Assignment { ip: ip(192, 168, 1, 77), netmask: ip(255, 255, 255, 0) }) },
        Interface { is_loopback: false, ipv4: Some(Ipv4Assignment { ip: ip(10, 1, 2, 3), netmask: ip(255, 255, 0, 0) }) },
    ];
    let subnets = get_local_subnets(&ifaces);
    assert_eq!(
        subnets,
        vec![
            Subnet { addr: ip(192, 168, 1, 77), prefix: 24 },
            Subnet { addr: ip(10, 1, 2, 3), prefix: 16 },
        ]
    );
}

#[test]
fn get_local_subnets_counts_netmask_bits() {
    let ifaces = vec![Interface { is_loopback: false, ipv4: Some(Ipv4Assignment { ip: ip(10, 0, 0, 9), netmask: ip(255, 0, 255, 0) }) }];
    assert_eq!(get_local_subnets(&ifaces), vec![Subnet { addr: ip(10, 0, 0, 9), prefix: 16 }]);
}

#[test]
fn subnet_size_is_two_to_the_host_bits() {
    assert_eq!(subnet_size(&Subnet { addr: ip(10, 0, 0, 1), prefix: 24 }), Some(256));
    assert_eq!(subnet_size(&Subnet { addr: ip(10, 0, 0, 1), prefix: 32 }), Some(1));
    assert_eq!(subnet_size(&Subnet { addr: ip(10, 0, 0, 1), prefix: 1 }), Some(0x8000_0000));
}

#[test]
fn enumerate_subnet_ips_leaves_out_network_and_broadcast() {
    let hosts = enumerate_subnet_ips(&Subnet { addr: ip(192, 168, 1, 77), prefix: 24 });
    assert_eq!(hosts.len(), 254);
    assert_eq!(hosts[0], ip(192, 168, 1, 1));
    assert_eq!(hosts[253], ip(192, 168, 1, 254));
    assert!(!hosts.contains(&ip(192, 168, 1, 0)));
    assert!(!hosts.contains(&ip(192, 168, 1, 255)));
}

#[test]
fn enumerate_subnet_ips_small_networks() {
    assert_eq!(enumerate_subnet_ips(&Subnet { addr: ip(10, 0, 0, 6), prefix: 30 }), vec![ip(10, 0, 0, 5), ip(10, 0, 0, 6)]);
    assert!(enumerate_subnet_ips(&Subnet { addr: ip(10, 0, 0, 6), prefix: 31 }).is_empty());
    assert!(enumerate_subnet_ips(&Subnet { addr: ip(10, 0, 0, 6), prefix: 32 }).is_empty());
}

#[test]
fn enumerate_subnet_ips_skips_large_and_caps_hosts() {
    assert!(enumerate_subnet_ips(&Subnet { addr: ip(10, 1, 2, 3), prefix: 16 }).is_empty());
    let hosts = enumerate_subnet_ips(&Subnet { addr: ip(10, 1, 200, 3), prefix: 17 });
    assert_eq!(hosts.len(), 20000);
    assert_eq!(hosts[0], ip(10, 1, 128, 1));
    assert_eq!(hosts[19999], ip(10, 1, 128, 0) + 20000);
}

#[test]
fn known_ips_are_the_mount_access_points() {
    assert_eq!(known_ips(), vec![ip(192, 168, 45, 1), ip(192, 168, 46, 2)]);
}

#[test]
fn build_scan_targets_orders_and_dedups() {
    let discovered = vec![Some(ip(192, 168, 46, 2)), None, Some(ip(192, 168, 1, 20)), Some(ip(10, 9, 9, 9))];
    let subnets = vec![
        Subnet { addr: ip(192, 168, 1, 77), prefix: 30 },
        Subnet { addr: ip(192, 168, 1, 20), prefix: 30 },
        Subnet { addr: ip(172, 16, 0, 1), prefix: 12 },
    ];
    let plan = build_scan_targets(&discovered, &subnets);
    assert_eq!(
        plan.targets,
        vec![
            ip(192, 168, 45, 1),
            ip(192, 168, 46, 2),
            ip(192, 168, 1, 20),
            ip(10, 9, 9, 9),
            ip(192, 168, 1, 77),
            ip(192, 168, 1, 78),
            ip(192, 168, 1, 21),
            ip(192, 168, 1, 22),
        ]
    );
    assert!(plan.has_large_network);
    assert!(scan_failure(&plan).is_none());
}

#[test]
fn build_scan_targets_without_subnets() {
    let plan = build_scan_targets(&Vec::new(), &Vec::new());
    assert_eq!(plan.targets, known_ips());
    assert!(!plan.has_large_network);
}

#[test]
fn scan_failure_reports_too_large_network() {
    let plan = ScanPlan { targets: Vec::new(), has_large_network: true };
    let progress = scan_failure(&plan).unwrap();
    assert_eq!(progress.percentage, 100);
    assert_eq!(progress.message, "Error: network too large to scan");
    assert!(scan_failure(&ScanPlan { targets: Vec::new(), has_large_network: false }).is_none());
}

#[test]
fn progress_report_every_hundredth_and_at_the_end() {
    assert!(progress_report(1, 200).is_none());
    let p = progress_report(2, 200).unwrap();
    assert_eq!(p.percentage, 1);
    assert_eq!(p.message, "Long Scan: 1%");
    let last = progress_report(200, 200).unwrap();
    assert_eq!(last.percentage, 100);
    assert_eq!(last.message, "Long Scan: 100%");
    let small = progress_report(1, 3).unwrap();
    assert_eq!(small.percentage, 33);
    assert!(progress_report(0, 0).is_none());
    let odd = progress_report(257, 257).unwrap();
    assert_eq!(odd.percentage, 100);
    assert!(progress_report(255, 257).is_none());
}

#[test]
fn open_addresses_keeps_open_ones_as_text() {
    let found = open_addresses(&vec![(ip(10, 0, 0, 5), true), (ip(10, 0, 0, 6), false), (ip(192, 168, 45, 1), true)]);
    assert_eq!(found, vec!["10.0.0.5".to_string(), "192.168.45.1".to_string()]);
}
