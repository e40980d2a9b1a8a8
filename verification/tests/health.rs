use nucleus_agent::health::{
    adapter_info, agent_version, can_report_disk, cidr_to_mask, collect_adapters,
    collect_heartbeat, is_root_path, is_skipped, parse_gateway, parse_ip_address, parse_nm_profile,
    parse_subnet_mask, read_ip_info, read_nm_methods, DiskReading, InterfaceReading, SystemReading,
};
use nucleus_agent::messages::{AdapterInfo, AgentToServer};
use std::path::Path;

const ADDR: &str = "2: eth0    inet 10.10.1.1/24 brd 10.10.1.255 scope global eth0\\       valid_lft forever\n";
const ROUTE: &str = "10.10.1.0/24 proto kernel scope link src 10.10.1.1\ndefault via 10.10.1.254 proto dhcp metric 100\ndefault via 1.2.3.4\n";

fn text(s: &str) -> Option<String> {
    Some(s.to_string())
}

#[test]
fn masks() {
    for (prefix, mask) in [
        (0, "0.0.0.0"),
        (1, "128.0.0.0"),
        (8, "255.0.0.0"),
        (17, "255.255.128.0"),
        (24, "255.255.255.0"),
        (30, "255.255.255.252"),
        (32, "255.255.255.255"),
    ] {
        assert_eq!(cidr_to_mask(prefix), text(mask));
    }
    assert_eq!(cidr_to_mask(33), None);
    assert_eq!(cidr_to_mask(255), None);
}

#[test]
fn mask_has_the_first_bits_set() {
    for prefix in 0..=32u8 {
        let mask: u32 = cidr_to_mask(prefix)
            .unwrap()
            .split('.')
            .fold(0, |n, part| n * 256 + part.parse::<u32>().unwrap());
        assert_eq!(mask.leading_ones(), prefix as u32);
        assert_eq!(mask.count_ones(), prefix as u32);
    }
}

#[test]
fn address_and_mask_come_from_the_first_word_with_a_slash() {
    assert_eq!(parse_ip_address(ADDR), text("10.10.1.1"));
    assert_eq!(parse_subnet_mask(ADDR), text("255.255.255.0"));
    assert_eq!(parse_ip_address(""), None);
    assert_eq!(parse_subnet_mask("no slash here"), None);
    assert_eq!(parse_ip_address("a /24/x b/c"), text(""));
    assert_eq!(parse_subnet_mask("a /24/x b/c"), text("255.255.255.0"));
    assert_eq!(parse_ip_address("1.2.3.4/"), text("1.2.3.4"));
    assert_eq!(parse_subnet_mask("1.2.3.4/"), None);
    assert_eq!(parse_subnet_mask("1.2.3.4/33"), None);
    assert_eq!(parse_subnet_mask("1.2.3.4/+8"), text("255.0.0.0"));
    assert_eq!(parse_subnet_mask("1.2.3.4/-8"), None);
}

#[test]
fn gateway_comes_from_the_first_default_route() {
    assert_eq!(parse_gateway(ROUTE), text("10.10.1.254"));
    assert_eq!(parse_gateway("default via"), None);
    assert_eq!(parse_gateway("default via\ndefault via 1.1.1.1"), None);
    assert_eq!(parse_gateway(" default via 1.1.1.1"), None);
    assert_eq!(parse_gateway("default dev eth0\r\ndefault via 1.1.1.1\r\n"), text("1.1.1.1"));
    assert_eq!(parse_gateway("default viaduct x y"), text("x"));
    assert_eq!(parse_gateway(""), None);
}

#[test]
fn ip_info_reads_both_outputs() {
    let addr = Some(ADDR.as_bytes().to_vec());
    let route = Some(ROUTE.as_bytes().to_vec());
    assert_eq!(
        read_ip_info(&addr, &route),
        (text("10.10.1.1"), text("255.255.255.0"), text("10.10.1.254"))
    );
    assert_eq!(read_ip_info(&None, &route), (None, None, text("10.10.1.254")));
    assert_eq!(
        read_ip_info(&addr, &None),
        (text("10.10.1.1"), text("255.255.255.0"), None)
    );
}

#[test]
fn empty_outputs_give_nothing() {
    assert_eq!(read_ip_info(&Some(vec![]), &Some(vec![])), (None, None, None));
}

#[test]
fn ip_info_replaces_bytes_that_are_no_text() {
    let addr = Some(b"\xFF1.2.3.4/8".to_vec());
    let route = Some("default via \u{e9}".as_bytes().to_vec());
    assert_eq!(
        read_ip_info(&addr, &route),
        (text("\u{fffd}1.2.3.4"), text("255.0.0.0"), text("\u{e9}"))
    );
}

#[test]
fn profile_gives_interface_and_mode() {
    let profile = "[connection]\nid=x\ninterface-name=eth0\n\n[ipv4]\nmethod=manual\n";
    assert_eq!(parse_nm_profile(profile), Some(("eth0".to_string(), "Static".to_string())));
}

#[test]
fn modes_have_names() {
    for (method, mode) in [
        ("manual", "Static"),
        ("auto", "DHCP"),
        ("shared", "Shared"),
        ("link-local", "Link-Local"),
        ("disabled", "Disabled"),
        ("other", "other"),
        ("", ""),
        ("Auto", "Auto"),
    ] {
        let profile = format!("[ipv4]\nmethod={}\n[connection]\ninterface-name=e\n", method);
        assert_eq!(parse_nm_profile(&profile), Some(("e".to_string(), mode.to_string())));
    }
}

#[test]
fn settings_count_in_their_section_only() {
    assert_eq!(parse_nm_profile("interface-name=e\nmethod=auto\n"), None);
    assert_eq!(parse_nm_profile("[connection]\nmethod=auto\ninterface-name=e\n"), None);
    assert_eq!(parse_nm_profile("[ipv4]\ninterface-name=e\nmethod=auto\n"), None);
    assert_eq!(
        parse_nm_profile("[connection]\ninterface-name=e\n[ipv6]\nmethod=auto\n"),
        None
    );
    assert_eq!(
        parse_nm_profile("[connection]\n[other\ninterface-name=e\n[ipv4]\nmethod=auto"),
        None
    );
}

#[test]
fn last_setting_of_a_profile_counts() {
    let profile = "  [ipv4]\t\r\n method=auto \r\n[connection]\r\ninterface-name=a\ninterface-name= b\n[ipv4]\nmethod=shared\n#method=manual\n[connection]x\ninterface-name=c";
    assert_eq!(parse_nm_profile(profile), Some((" b".to_string(), "Shared".to_string())));
}

#[test]
fn last_profile_of_an_interface_counts() {
    let profile = |iface: &str, method: &str| {
        format!("[connection]\ninterface-name={}\n[ipv4]\nmethod={}\n", iface, method)
    };
    let methods = read_nm_methods(&vec![
        profile("eth0", "auto"),
        profile("eth1", "shared"),
        "nothing".to_string(),
        profile("eth0", "manual"),
    ]);
    assert_eq!(methods.get("eth0"), text("Static"));
    assert_eq!(methods.get("eth1"), text("Shared"));
    assert_eq!(methods.get("eth2"), None);
    assert_eq!(read_nm_methods(&vec![]).get("eth0"), None);
}

#[test]
fn profile_name_never_decides() {
    let profile = |id: &str| {
        format!("[connection]\n{}interface-name=eth0\n[ipv4]\nmethod=manual\n{}", id, id)
    };
    for id in ["", "id=dhcp\n", " id=method=auto\n", "id=interface-name=eth9\nid=[ipv6]\n"] {
        let methods = read_nm_methods(&vec![profile(id)]);
        assert_eq!(methods.get("eth0"), text("Static"));
        assert_eq!(methods.get("eth9"), None);
    }
}

#[test]
fn virtual_interfaces_are_skipped() {
    for name in ["lo", "veth1", "veth", "br-abc", "docker0", "wwan0"] {
        assert!(is_skipped(name), "{}", name);
    }
    for name in ["", "l", "lo0", "eth0", "wlan0", "br0", "bridge", "vet", "enp3s0"] {
        assert!(!is_skipped(name), "{}", name);
    }
}

fn reading(name: &str) -> InterfaceReading {
    InterfaceReading {
        name: name.to_string(),
        operstate: text("up\n"),
        address: text("aa:bb:cc:dd:ee:ff\n"),
        addr_output: Some(ADDR.as_bytes().to_vec()),
        route_output: Some(ROUTE.as_bytes().to_vec()),
    }
}

#[test]
fn adapter_is_put_together() {
    let methods =
        read_nm_methods(&vec!["[connection]\ninterface-name=eth0\n[ipv4]\nmethod=auto".to_string()]);
    assert_eq!(
        adapter_info(&reading("eth0"), &methods),
        AdapterInfo {
            name: "eth0".to_string(),
            mac_address: text("aa:bb:cc:dd:ee:ff"),
            ip_address: text("10.10.1.1"),
            subnet_mask: text("255.255.255.0"),
            gateway: text("10.10.1.254"),
            mode: text("DHCP"),
            is_up: true,
        }
    );
}

#[test]
fn adapter_without_readings() {
    let methods = read_nm_methods(&vec![]);
    let bare = InterfaceReading {
        name: "eth1".to_string(),
        operstate: None,
        address: None,
        addr_output: None,
        route_output: None,
    };
    let expected = AdapterInfo {
        name: "eth1".to_string(),
        mac_address: None,
        ip_address: None,
        subnet_mask: None,
        gateway: None,
        mode: None,
        is_up: false,
    };
    assert_eq!(adapter_info(&bare, &methods), expected);
    let zero = InterfaceReading {
        operstate: text("down"),
        address: text("00:00:00:00:00:00\n"),
        ..bare
    };
    assert_eq!(adapter_info(&zero, &methods), expected);
}

#[test]
fn adapters_keep_their_order_without_the_skipped() {
    let methods = read_nm_methods(&vec![]);
    let names: Vec<String> = collect_adapters(
        &vec![reading("lo"), reading("eth1"), reading("docker0"), reading("eth0"), reading("br-1")],
        &methods,
    )
    .into_iter()
    .map(|a| a.name)
    .collect();
    assert_eq!(names, vec!["eth1", "eth0"]);
    assert!(collect_adapters(&vec![], &methods).is_empty());
}

#[test]
fn root_paths_agree_with_std() {
    for path in [
        "", "/", "//", "///", "/.", "/./", "/././/.", ".", "./", "/..", "/a", "a/", "/.a", "/. /",
        "//.", "/.../", "/boot",
    ] {
        assert_eq!(
            is_root_path(path.as_bytes()),
            Path::new(path) == Path::new("/"),
            "{:?}",
            path
        );
    }
}

fn disk(mount_point: &str, total_space: u64, available_space: u64) -> DiskReading {
    DiskReading { mount_point: mount_point.as_bytes().to_vec(), total_space, available_space }
}

fn system(disks: Vec<DiskReading>) -> SystemReading {
    SystemReading { cpu_bits: 12.5f32.to_bits(), mem: 3, mem_total: 4, disks, uptime: 99 }
}

fn disk_of(reading: &SystemReading) -> (u64, u64) {
    assert!(can_report_disk(reading));
    match collect_heartbeat(reading, "0.19.2", vec![]) {
        AgentToServer::Heartbeat { disk, disk_total, .. } => (disk, disk_total),
        other => panic!("{:?}", other),
    }
}

#[test]
fn heartbeat_is_put_together() {
    let methods = read_nm_methods(&vec![]);
    let adapters = collect_adapters(&vec![reading("eth0")], &methods);
    let reading = system(vec![disk("/boot", 10, 1), disk("/", 100, 30), disk("/", 7, 7)]);
    assert_eq!(
        collect_heartbeat(&reading, "0.19.2", adapters.clone()),
        AgentToServer::Heartbeat {
            cpu_bits: 12.5f32.to_bits(),
            mem: 3,
            mem_total: 4,
            disk: 70,
            disk_total: 100,
            uptime: 99,
            agent_version: "vr19".to_string(),
            active_tunnels: 0,
            adapters,
        }
    );
}

#[test]
fn disk_usage_is_that_of_the_first_root() {
    assert_eq!(disk_of(&system(vec![])), (0, 0));
    assert_eq!(disk_of(&system(vec![disk("/home", 5, 9)])), (0, 0));
    assert_eq!(disk_of(&system(vec![disk("/", u64::MAX, 0)])), (u64::MAX, u64::MAX));
    assert!(!can_report_disk(&system(vec![disk("/", 5, 6)])));
    assert!(can_report_disk(&system(vec![disk("/", 5, 5), disk("/", 5, 6)])));
}

#[test]
fn version_is_the_second_part() {
    assert_eq!(agent_version("0.19.0"), "vr19");
    assert_eq!(agent_version("1.20"), "vr20");
    assert_eq!(agent_version("1."), "vr");
    assert_eq!(agent_version("7"), "vr19");
    assert_eq!(agent_version(""), "vr19");
}
