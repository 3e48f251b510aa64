use pon_provision::command::omci::WanMode;
use pon_provision::command::Command;
use pon_provision::configuration::{Config, ConfigInfo, NestedCommand};
use pon_provision::olt::{Interface, InterfaceLevel};
use pon_provision::onu::{Onu, OnuService, Vlan};

fn pppoe_unit() -> Onu {
    let mut vlan = Vlan::new(100);
    vlan.pppoe("user1", "pass1");
    let interface = Interface { level: InterfaceLevel::GponOlt, slot: 1, port: 3, id: Some(5) };
    Onu::new(interface, "F670L", "ABCD1234", vec![OnuService::new(vlan)])
}

fn collect(tree: &NestedCommand, out: &mut Vec<String>) {
    out.push(tree.as_str().to_string());
    if let Some(kids) = &tree.nested {
        for kid in kids {
            collect(kid, out);
        }
    }
}

fn all_lines(config: &Config) -> Vec<String> {
    let mut out = Vec::new();
    for (_, trees) in &config.0 {
        for tree in trees {
            collect(tree, &mut out);
        }
    }
    out
}

#[test]
fn vlan_setters_overwrite() {
    let mut vlan = Vlan::new(100);
    assert_eq!(vlan, Vlan { id: 100, service: None });
    vlan.dhcp();
    assert_eq!(vlan.service, Some(WanMode::Dhcp));
    vlan.pppoe("u", "p");
    assert_eq!(
        vlan.service,
        Some(WanMode::PPPoE { username: "u".to_string(), password: "p".to_string() })
    );
    vlan.dhcp();
    assert_eq!(vlan, Vlan { id: 100, service: Some(WanMode::Dhcp) });
}

#[test]
fn unit_keeps_what_it_was_made_of() {
    let mut unit = pppoe_unit();
    assert_eq!(unit.interface().id, Some(5));
    assert_eq!(unit.model(), "F670L");
    assert_eq!(unit.sn(), "ABCD1234");
    assert_eq!(unit.services().len(), 1);
    assert_eq!(unit.services()[0].upload, None);
    assert_eq!(unit.services()[0].download, None);
    unit.set_service(Vec::new());
    assert_eq!(unit.services().len(), 0);
    assert_eq!(unit.sn(), "ABCD1234");
}

#[test]
fn pppoe_unit_script_holds_the_expected_lines() {
    let lines = all_lines(&pppoe_unit().configure_script());
    for wanted in [
        "interface gpon_olt-1/1/3",
        "onu 5 type F670L sn ABCD1234",
        "interface gpon_onu-1/1/3:5",
        "tcont 1 profile 1G",
        "gemport 1 tcont 1",
        "vport-mode manual",
        "vport 1 map-type vlan",
        "vport-map 1 0 vlan 100",
        "interface vport-1/1/3.5:1",
        "service-port 1 user-vlan 100 vlan 100",
        "pon-onu-mng gpon_onu-1/1/3:5",
        "service 1 gemport 1 vlan 100",
        "wan-ip ipv4 mode pppoe username user1 password pass1 vlan-profile 100 host 1",
        "security-mgmt 1 state enable mode forward ingress-type iphost 1 protocol Web",
        "end",
    ] {
        assert!(lines.iter().any(|line| line == wanted), "missing line {wanted:?} in {lines:?}");
    }
}

#[test]
fn pppoe_unit_script_text() {
    let text = pppoe_unit().configure_script().render();
    let expected = "!<if-intf>\n\
interface gpon_onu-1/1/3:5\n\
interface vport-1/1/3.5:1\n\
!</if-intf>\n\
!<xpon>\n\
interface gpon_olt-1/1/3\n\
\x20 onu 5 type F670L sn ABCD1234\n\
$\n\
interface gpon_onu-1/1/3:5\n\
\x20 tcont 1 profile 1G\n\
\x20 gemport 1 tcont 1\n\
\x20 vport-mode manual\n\
\x20 vport 1 map-type vlan\n\
\x20 vport-map 1 0 vlan 100\n\
$\n\
pon-onu-mng gpon_onu-1/1/3:5\n\
\x20 service 1 gemport 1 vlan 100\n\
\x20 wan-ip ipv4 mode pppoe username user1 password pass1 vlan-profile 100 host 1\n\
\x20 security-mgmt 1 state enable mode forward ingress-type iphost 1 protocol Web\n\
$\n\
!</xpon>\n\
!<MSAN>\n\
interface vport-1/1/3.5:1\n\
\x20 service-port 1 user-vlan 100 vlan 100\n\
$\n\
end\n\
!</MSAN>\n";
    assert_eq!(text, expected);
}

#[test]
fn generation_is_deterministic() {
    let first = pppoe_unit().configure_script();
    let second = pppoe_unit().configure_script();
    assert_eq!(all_lines(&first), all_lines(&second));
    assert_eq!(first.render(), second.render());
}

#[test]
fn services_are_numbered_in_list_order() {
    let mut second = Vlan::new(200);
    second.dhcp();
    let interface = Interface { level: InterfaceLevel::GponOnu, slot: 0, port: 16, id: Some(129) };
    let unit = Onu::new(
        interface,
        "F601",
        "ZTEG1",
        vec![OnuService::new(Vlan::new(100)), OnuService::new(second)],
    );
    let lines = all_lines(&unit.configure_script());
    for wanted in [
        "vport-map 1 0 vlan 100",
        "vport-map 1 1 vlan 200",
        "interface vport-1/0/16.129:1",
        "interface vport-1/0/16.129:2",
        "service-port 1 user-vlan 100 vlan 100",
        "service-port 2 user-vlan 200 vlan 200",
        "service 1 gemport 1 vlan 100",
        "service 2 gemport 1 vlan 200",
        "wan-ip ipv4 mode dhcp vlan-profile 200 host 2",
        "security-mgmt 2 state enable mode forward ingress-type iphost 1 protocol Web",
    ] {
        assert!(lines.iter().any(|line| line == wanted), "missing line {wanted:?}");
    }
    assert!(!lines.iter().any(|line| line.starts_with("security-mgmt 1 ")));
    assert!(!lines.iter().any(|line| line.ends_with("host 1")));
}

#[test]
fn unit_without_services_gets_bare_management_line() {
    let interface = Interface { level: InterfaceLevel::GponOlt, slot: 2, port: 2, id: Some(1) };
    let config = Onu::new(interface, "F601", "S", Vec::new()).configure_script();
    assert_eq!(config.0.len(), 3);
    assert_eq!(config.0[1].0.as_str(), "xpon");
    assert_eq!(config.0[1].1.len(), 3);
    assert_eq!(config.0[1].1[0].as_str(), "interface gpon_olt-1/2/2");
    assert_eq!(config.0[1].1[2].as_str(), "pon-onu-mng gpon_onu-1/2/2:1");
    assert_eq!(config.0[1].1[2].nested, None);
    assert_eq!(config.0[2].1.len(), 1);
    assert_eq!(config.0[2].1[0].as_str(), "end");
}

#[test]
fn batch_script_merges_one_script_per_record() {
    let records = vec![
        ConfigInfo {
            sn: "SN1".to_string(),
            pppoe_user: "anna".to_string(),
            pppoe_password: "first".to_string(),
            model: "F601".to_string(),
        },
        ConfigInfo {
            sn: "SN2".to_string(),
            pppoe_user: "bert".to_string(),
            pppoe_password: "second".to_string(),
            model: "F670L".to_string(),
        },
    ];
    let interface = Interface { level: InterfaceLevel::GponOlt, slot: 1, port: 3, id: Some(5) };
    let config = Command::onu_script(&records, 100, &interface);
    assert_eq!(config.0.len(), 3);
    assert_eq!(config.0[0].0.as_str(), "if-intf");
    assert_eq!(config.0[0].1.len(), 4);
    assert_eq!(config.0[1].1.len(), 6);
    assert_eq!(config.0[2].1.len(), 4);
    let lines = all_lines(&config);
    for wanted in [
        "onu 5 type F601 sn SN1",
        "onu 5 type F670L sn SN2",
        "wan-ip ipv4 mode pppoe username anna password first vlan-profile 100 host 1",
        "wan-ip ipv4 mode pppoe username bert password second vlan-profile 100 host 1",
    ] {
        assert!(lines.iter().any(|line| line == wanted), "missing line {wanted:?}");
    }
    assert_eq!(Command::onu_script(&Vec::new(), 100, &interface).0.len(), 0);
}

#[test]
fn empty_batch_needs_no_unit_number() {
    let port = Interface { level: InterfaceLevel::GponOlt, slot: 1, port: 3, id: None };
    assert_eq!(Command::onu_script(&Vec::new(), 100, &port).0.len(), 0);
}

#[test]
fn unit_is_recovered_from_its_script() {
    let text = pppoe_unit().configure_script().render();
    let units = Config::parse_text(&text).extract_onu();
    assert_eq!(units.len(), 1);
    assert_eq!(units[0].interface().level, InterfaceLevel::GponOlt);
    assert_eq!(units[0].interface().slot, 1);
    assert_eq!(units[0].interface().port, 3);
    assert_eq!(units[0].interface().id, Some(5));
    assert_eq!(units[0].model(), "F670L");
    assert_eq!(units[0].sn(), "ABCD1234");
    assert_eq!(units[0].services(), pppoe_unit().services());
}

#[test]
fn services_with_a_way_of_access_are_recovered() {
    let mut second = Vlan::new(200);
    second.dhcp();
    let mut third = Vlan::new(300);
    third.pppoe("u", "p");
    let interface = Interface { level: InterfaceLevel::GponOnu, slot: 0, port: 16, id: Some(129) };
    let unit = Onu::new(
        interface,
        "F601",
        "ZTEG1",
        vec![OnuService::new(Vlan::new(100)), OnuService::new(second), OnuService::new(third)],
    );
    let units = Config::parse(&unit.configure_script().lines()).extract_onu();
    assert_eq!(units.len(), 1);
    assert_eq!(units[0].services().len(), 2);
    assert_eq!(units[0].services()[0], unit.services()[1]);
    assert_eq!(units[0].services()[1], unit.services()[2]);
}

#[test]
fn units_of_a_batch_are_recovered_in_order() {
    let records = vec![
        ConfigInfo {
            sn: "SN1".to_string(),
            pppoe_user: "anna".to_string(),
            pppoe_password: "first".to_string(),
            model: "F601".to_string(),
        },
        ConfigInfo {
            sn: "SN2".to_string(),
            pppoe_user: "bert".to_string(),
            pppoe_password: "second".to_string(),
            model: "F670L".to_string(),
        },
    ];
    let interface = Interface { level: InterfaceLevel::GponOlt, slot: 19, port: 16, id: Some(129) };
    let lines = Command::onu_script(&records, 4094, &interface).lines();
    let units = Config::parse(&lines).extract_onu();
    assert_eq!(units.len(), 2);
    assert_eq!((units[0].model(), units[0].sn()), ("F601", "SN1"));
    assert_eq!((units[1].model(), units[1].sn()), ("F670L", "SN2"));
    assert_eq!(units[1].interface().id, Some(129));
    assert_eq!(units[0].services().len(), 1);
    assert_eq!(units[1].services().len(), 0);
}
