use pon_provision::command::omci::WanMode;
use pon_provision::command::Command;
use pon_provision::configuration::Config;
use pon_provision::error::Error;
use pon_provision::legacy::read_onu_line;
use pon_provision::olt::InterfaceLevel;
use pon_provision::onu::Vlan;

fn lines(text: &str) -> Vec<String> {
    text.lines().map(|line| line.to_string()).collect()
}

#[test]
fn reads_a_registering_line() {
    let record = read_onu_line("onu 3 type F670L sn XYZ").unwrap();
    assert_eq!(record.id, 3);
    assert_eq!(record.model, "F670L");
    assert_eq!(record.sn, "XYZ");
    let top = read_onu_line("onu 129 type a sn b sn c").unwrap();
    assert_eq!((top.id, top.model.as_str(), top.sn.as_str()), (129, "a sn b", "c"));
}

#[test]
fn rejects_what_registers_no_unit() {
    for text in [
        "",
        "onu",
        "onu 0 type F sn X",
        "onu 130 type F sn X",
        "onu 03 type F sn X",
        "onu x type F sn X",
        "onu 3 type F",
        "onu 3 typeF sn X",
        " onu 3 type F sn X",
        "onu 3 type F sn X\n",
    ] {
        assert!(read_onu_line(text).is_none(), "{text:?} was read");
    }
}

#[test]
fn reads_a_dhcp_connection() {
    let vlan = Vlan::parse("wan-ip 1 mode dhcp vlan-profile 100 host 1").unwrap();
    assert_eq!(vlan, Vlan { id: 100, service: Some(WanMode::Dhcp) });
    let line = Command::from("wan-ip 2 mode dhcp vlan-profile 7 host 2");
    assert_eq!(Vlan::try_from(&line).unwrap(), Vlan { id: 7, service: Some(WanMode::Dhcp) });
}

#[test]
fn reads_a_pppoe_connection() {
    let vlan =
        Vlan::parse("wan-ip 1 mode pppoe username user1 password pass1 vlan-profile 4094 host 1 x")
            .unwrap();
    let access = WanMode::PPPoE { username: "user1".to_string(), password: "pass1".to_string() };
    assert_eq!(vlan, Vlan { id: 4094, service: Some(access) });
}

#[test]
fn pppoe_user_runs_to_the_last_password() {
    let vlan = Vlan::parse(
        "wan-ip 2 mode pppoe username a password b password c vlan-profile 5 host 9",
    )
    .unwrap();
    let access = WanMode::PPPoE { username: "a password b".to_string(), password: "c".to_string() };
    assert_eq!(vlan, Vlan { id: 5, service: Some(access) });
}

#[test]
fn rejects_what_sets_up_no_connection() {
    for text in [
        "",
        "wan-ip",
        "wan-ip ipv6 mode dhcp vlan-profile 100 host 1",
        "wan-ip ipv4  mode dhcp vlan-profile 100 host 1",
        "wan-ip 12 mode dhcp vlan-profile 100 host 1",
        "wan-ip 1 mode static vlan-profile 100 host 1",
        "wan-ip 1 mode dhcp vlan-profile 100",
        "wan-ip 1 mode dhcp vlan-profile 100 host x",
        "wan-ip 1 mode dhcp vlan-profile abc host 1",
        "wan-ip 1 mode dhcp vlan-profile 65536 host 1",
        "wan-ip 1 mode dhcp vlan-profile 0065536 host 1",
        "wan-ip 1 mode dhcp vlan-profile + host 1",
        "wan-ip 1 mode dhcp vlan-profile -5 host 1",
        "wan-ip 1 mode dhcp vlan-profile 5+ host 1",
        "wan-ip 1 mode dhcp vlan-profile  host 1",
        "wan-ip 1 mode pppoe username u vlan-profile 100 host 1",
        "service 1 gemport 1 vlan 100",
    ] {
        match Vlan::parse(text) {
            Err(Error::Generic(message)) => assert_eq!(message, "Parse vlan"),
            Ok(found) => panic!("{text:?} was read as {found:?}"),
        }
    }
}

#[test]
fn reads_the_connection_lines_of_a_script() {
    let dhcp = Vlan::parse("wan-ip ipv4 mode dhcp vlan-profile 100 host 1").unwrap();
    assert_eq!(dhcp, Vlan { id: 100, service: Some(WanMode::Dhcp) });
    let pppoe = Vlan::parse(
        "wan-ip ipv4 mode pppoe username user1 password pass1 vlan-profile 100 host 1",
    )
    .unwrap();
    let access = WanMode::PPPoE { username: "user1".to_string(), password: "pass1".to_string() };
    assert_eq!(pppoe, Vlan { id: 100, service: Some(access) });
}

#[test]
fn vlan_is_read_with_sign_and_leading_zeros() {
    for (written, id) in [("0100", 100u16), ("+5", 5), ("+007", 7), ("0", 0), ("000065535", 65535)] {
        let line = format!("wan-ip 1 mode dhcp vlan-profile {written} host 1");
        assert_eq!(Vlan::parse(&line).unwrap(), Vlan { id, service: Some(WanMode::Dhcp) });
    }
}

#[test]
fn extracts_unit_with_dhcp_service_from_a_dump() {
    let dump = "!<xpon>\n\
interface gpon-olt_1/1/3\n\
\x20 onu 3 type F670L sn XYZ\n\
$\n\
interface gpon-onu_1/1/3:3\n\
\x20 wan-ip 1 mode dhcp vlan-profile 9 host 1\n\
$\n\
pon-onu-mng gpon-onu_1/1/3:3\n\
\x20 service 1 gemport 1 vlan 100\n\
\x20 wan-ip 1 mode dhcp vlan-profile 100 host 1\n\
$\n\
!</xpon>\n";
    let units = Config::parse(&lines(dump)).extract_onu();
    assert_eq!(units.len(), 1);
    assert_eq!(units[0].interface().id, Some(3));
    assert_eq!(units[0].sn(), "XYZ");
    assert_eq!(units[0].model(), "F670L");
    assert_eq!(units[0].services().len(), 1);
    assert_eq!(units[0].services()[0].vlan, Vlan { id: 100, service: Some(WanMode::Dhcp) });
}

#[test]
fn management_word_counts_only_at_the_front() {
    let dump = "!<xpon>\n\
interface gpon-olt_1/1/3\n\
\x20 onu 3 type F670L sn XYZ\n\
$\n\
no pon-onu-mng gpon-onu_1/1/3:3\n\
\x20 wan-ip 1 mode dhcp vlan-profile 100 host 1\n\
$\n\
pon-onu-mng gpon-onu_1/1/3:4\n\
\x20 wan-ip 1 mode dhcp vlan-profile 100 host 1\n\
$\n\
!</xpon>\n";
    let units = Config::parse(&lines(dump)).extract_onu();
    assert_eq!(units.len(), 1);
    assert_eq!(units[0].services().len(), 0);
}

#[test]
fn extracts_unit_with_dhcp_service() {
    let dump = "!<xpon>\n\
interface gpon-olt_1/1/3\n\
\x20 onu 3 type F670L sn XYZ\n\
$\n\
pon-onu-mng-1/1/3:3\n\
\x20 service 1 gemport 1 vlan 100\n\
\x20 wan-ip 1 mode dhcp vlan-profile 100 host 1\n\
$\n\
!</xpon>\n";
    let units = Config::parse(&lines(dump)).extract_onu();
    assert_eq!(units.len(), 1);
    let unit = &units[0];
    assert_eq!(unit.interface().id, Some(3));
    assert_eq!(unit.interface().slot, 1);
    assert_eq!(unit.interface().port, 3);
    assert_eq!(unit.interface().level, InterfaceLevel::GponOlt);
    assert_eq!(unit.model(), "F670L");
    assert_eq!(unit.sn(), "XYZ");
    assert_eq!(unit.services().len(), 1);
    assert_eq!(unit.services()[0].vlan, Vlan { id: 100, service: Some(WanMode::Dhcp) });
}

#[test]
fn extracts_units_in_order_and_ignores_the_rest() {
    let dump = "!<if-intf>\n\
interface gpon-olt_1/9/9\n\
\x20 onu 9 type no sn no\n\
$\n\
!</if-intf>\n\
!<xpon>\n\
interface gpon-olt_1/1/1\n\
\x20 onu 1 type F601 sn A\n\
\x20 description something\n\
\x20 onu 2 type F670L sn B\n\
$\n\
interface gpon-onu_1/1/1:1\n\
\x20 wan-ip 1 mode dhcp vlan-profile 9 host 1\n\
$\n\
interface gpon-olt_1/2/16\n\
$\n\
pon-onu-mng_1/1/1:2\n\
\x20 wan-ip 1 mode pppoe username u password p vlan-profile 300 host 1\n\
\x20 flow 1 something\n\
$\n\
pon-onu-mng_1/7/7:7\n\
\x20 wan-ip 1 mode dhcp vlan-profile 9 host 1\n\
$\n\
ip route something\n\
!</xpon>\n";
    let units = Config::parse(&lines(dump)).extract_onu();
    assert_eq!(units.len(), 2);
    assert_eq!((units[0].interface().id, units[0].model(), units[0].sn()), (Some(1), "F601", "A"));
    assert_eq!((units[1].interface().id, units[1].model(), units[1].sn()), (Some(2), "F670L", "B"));
    assert_eq!(units[0].services().len(), 0);
    assert_eq!(units[1].services().len(), 1);
    let access = WanMode::PPPoE { username: "u".to_string(), password: "p".to_string() };
    assert_eq!(units[1].services()[0].vlan, Vlan { id: 300, service: Some(access) });
}

#[test]
fn management_block_replaces_earlier_services() {
    let dump = "!<xpon>\n\
interface gpon-olt_1/1/1\n\
\x20 onu 1 type F601 sn A\n\
$\n\
pon-onu-mng_1/1/1:1\n\
\x20 wan-ip 1 mode dhcp vlan-profile 9 host 1\n\
\x20 wan-ip 2 mode dhcp vlan-profile 10 host 2\n\
$\n\
pon-onu-mng_1/1/1:1\n\
$\n\
!</xpon>\n";
    let units = Config::parse(&lines(dump)).extract_onu();
    assert_eq!(units.len(), 1);
    assert_eq!(units[0].services().len(), 0);
}

#[test]
fn config_without_the_section_has_no_units() {
    let dump = "!<if-intf>\ninterface gpon-olt_1/1/1\n  onu 1 type F601 sn A\n$\n!</if-intf>\n";
    assert_eq!(Config::parse(&lines(dump)).extract_onu().len(), 0);
}
