use pon_provision::command::omci::{IngressType, Protocol, WanMode};
use pon_provision::command::Command;
use pon_provision::olt::{Interface, InterfaceLevel};

fn unit() -> Interface {
    Interface { level: InterfaceLevel::GponOlt, slot: 1, port: 3, id: Some(5) }
}

#[test]
fn fixed_commands() {
    assert_eq!(Command::exit().as_str(), "exit");
    assert_eq!(Command::write().as_str(), "do write");
    assert_eq!(Command::end().as_str(), "end");
    assert_eq!(Command::builder().line().as_str(), "configure terminal");
    assert_eq!(Command::from("show run").raw(), "show run");
    assert_eq!(Command::from("show run".to_string()), Command::from("show run"));
}

#[test]
fn global_mode_enters_sub_modes() {
    assert_eq!(Command::builder().interface().line().as_str(), "interface");
    assert_eq!(
        Command::builder().pon_onu_mng(&unit()).line().as_str(),
        "pon-onu-mng gpon_onu-1/1/3:5"
    );
}

#[test]
fn interface_lines() {
    let enter = Command::builder().interface();
    assert_eq!(enter.clone().gpon_olt(&unit()).line().as_str(), "interface gpon_olt-1/1/3");
    assert_eq!(enter.clone().gpon_onu(&unit()).line().as_str(), "interface gpon_onu-1/1/3:5");
    assert_eq!(enter.vport(&unit(), 2).line().as_str(), "interface vport-1/1/3.5:2");
}

#[test]
fn olt_chain() {
    let olt = Command::builder().interface().gpon_olt(&unit());
    let sn = olt.onu(5).onu_type("F670L").sn("ABCD1234");
    assert_eq!(sn.clone().run().as_str(), "onu 5 type F670L sn ABCD1234");
    assert_eq!(
        sn.clone().vport_mode().gemport().as_str(),
        "onu 5 type F670L sn ABCD1234 vport_mode gemport"
    );
    assert_eq!(sn.vport_mode().manual().as_str(), "onu 5 type F670L sn ABCD1234 vport_mode manual");
}

#[test]
fn onu_chain() {
    let onu = Command::builder().interface().gpon_onu(&unit());
    assert_eq!(onu.clone().tcont(1).profile("1G").as_str(), "tcont 1 profile 1G");
    assert_eq!(onu.clone().gemport(1).tcont(1).run().as_str(), "gemport 1 tcont 1");
    assert_eq!(onu.tcont(255).tcont(0).run().as_str(), "tcont 255 tcont 0");
}

#[test]
fn vport_chain() {
    let vport = Command::builder().interface().vport(&unit(), 1);
    assert_eq!(
        vport.service_port(1).user_vlan(100).vlan(100).run().as_str(),
        "service-port 1 user-vlan 100 vlan 100"
    );
    let wide = Command::builder().interface().vport(&unit(), 1);
    assert_eq!(
        wide.service_port(12).user_vlan(65535).vlan(4094).run().as_str(),
        "service-port 12 user-vlan 65535 vlan 4094"
    );
}

#[test]
fn omci_service_chain() {
    let omci = Command::builder().pon_onu_mng(&unit());
    assert_eq!(omci.clone().service(1).gemport(1).run().as_str(), "service 1 gemport 1");
    assert_eq!(omci.service(2).gemport(1).vlan(100).as_str(), "service 2 gemport 1 vlan 100");
}

#[test]
fn omci_wan_ip_chain() {
    let omci = Command::builder().pon_onu_mng(&unit());
    let pppoe = WanMode::PPPoE { username: "user1".to_string(), password: "pass1".to_string() };
    assert_eq!(
        omci.clone().wan_ip().mode(pppoe).vlan_profile(100).host(1).as_str(),
        "wan-ip ipv4 mode pppoe username user1 password pass1 vlan-profile 100 host 1"
    );
    assert_eq!(
        omci.wan_ip().mode(WanMode::Dhcp).vlan_profile(7).host(2).as_str(),
        "wan-ip ipv4 mode dhcp vlan-profile 7 host 2"
    );
}

#[test]
fn omci_security_chain() {
    let omci = Command::builder().pon_onu_mng(&unit());
    assert_eq!(
        omci.clone()
            .security_mgmt(1)
            .state(true)
            .mode(true)
            .ingress_type(IngressType::Iphost(1))
            .protocol(Protocol::Web)
            .as_str(),
        "security-mgmt 1 state enable mode forward ingress-type iphost 1 protocol Web"
    );
    assert_eq!(
        omci.clone()
            .security_mgmt(3)
            .state(false)
            .mode(false)
            .ingress_type(IngressType::Wan)
            .protocol(Protocol::Tr069)
            .as_str(),
        "security-mgmt 3 state disable mode discard ingress-type wan protocol Tr069"
    );
    assert_eq!(
        omci.security_mgmt(3)
            .state(true)
            .mode(false)
            .ingress_type(IngressType::Lan)
            .protocol(Protocol::Https)
            .as_str(),
        "security-mgmt 3 state enable mode discard ingress-type lan protocol Https"
    );
}

#[test]
fn every_protocol_has_its_name() {
    let names = [
        (Protocol::Web, "Web"),
        (Protocol::Telnet, "Telnet"),
        (Protocol::Ssh, "Ssh"),
        (Protocol::Ftp, "Ftp"),
        (Protocol::Snmp, "Snmp"),
        (Protocol::Tr069, "Tr069"),
        (Protocol::Https, "Https"),
    ];
    for (protocol, name) in names {
        let line = Command::builder()
            .pon_onu_mng(&unit())
            .security_mgmt(1)
            .state(true)
            .mode(true)
            .ingress_type(IngressType::Iphost(200))
            .protocol(protocol);
        assert_eq!(
            line.as_str(),
            format!("security-mgmt 1 state enable mode forward ingress-type iphost 200 protocol {name}")
        );
    }
}
