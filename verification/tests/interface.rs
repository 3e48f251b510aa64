use pon_provision::command::Command;
use pon_provision::error::Error;
use pon_provision::olt::{Interface, InterfaceLevel, Olt, OltModel, Titan};

fn interface(level: InterfaceLevel, slot: u8, port: u8, id: Option<u8>) -> Interface {
    Interface { level, slot, port, id }
}

#[test]
fn parses_olt_interface_line() {
    let got = Interface::parse("interface gpon_olt-1/1/3").unwrap();
    assert_eq!(got, interface(InterfaceLevel::GponOlt, 1, 3, None));
}

#[test]
fn parses_both_spellings_of_a_kind() {
    assert_eq!(Interface::parse("gpon-olt_1/0/16").unwrap().level, InterfaceLevel::GponOlt);
    assert_eq!(Interface::parse("gpon_olt-1/19/1").unwrap().level, InterfaceLevel::GponOlt);
    assert_eq!(Interface::parse("gpon-onu_1/2/4:7").unwrap().level, InterfaceLevel::GponOnu);
    assert_eq!(Interface::parse("gpon_onu-1/2/4:7").unwrap().level, InterfaceLevel::GponOnu);
    assert_eq!(Interface::parse("pon-onu-mng-1/2/4:7").unwrap().level, InterfaceLevel::PonOnuMng);
}

#[test]
fn parses_onu_interface_with_id() {
    let got = Interface::parse("interface gpon_onu-1/1/3:5").unwrap();
    assert_eq!(got, interface(InterfaceLevel::GponOnu, 1, 3, Some(5)));
    let top = Interface::parse("gpon-onu_1/19/16:129").unwrap();
    assert_eq!(top, interface(InterfaceLevel::GponOnu, 19, 16, Some(129)));
    let hundred = Interface::parse("gpon-onu_1/0/1:105").unwrap();
    assert_eq!(hundred.id, Some(105));
}

#[test]
fn unknown_kind_is_kept_by_name() {
    let got = Interface::parse("show xgei_1/2/3").unwrap();
    assert_eq!(got, interface(InterfaceLevel::Other("xgei".to_string()), 2, 3, None));
}

#[test]
fn kind_is_the_last_word_before_the_address() {
    let got = Interface::parse("pon-onu-mng gpon_onu-1/1/3:5").unwrap();
    assert_eq!(got, interface(InterfaceLevel::GponOnu, 1, 3, Some(5)));
}

#[test]
fn rejects_unit_number_out_of_range() {
    assert!(Interface::parse("gpon_onu-1/1/3:0").is_err());
    assert!(Interface::parse("gpon_onu-1/1/3:130").is_err());
    assert!(Interface::parse("gpon_onu-1/1/3:255").is_err());
    assert!(Interface::parse("gpon_onu-1/1/3:1000").is_err());
    assert!(Interface::parse("gpon_onu-1/1/3:05").is_err());
    assert!(Interface::parse("gpon_onu-1/1/3:").is_err());
}

#[test]
fn rejects_slot_or_port_out_of_range() {
    assert!(Interface::parse("gpon_olt-1/20/3").is_err());
    assert!(Interface::parse("gpon_olt-1/1/0").is_err());
    assert!(Interface::parse("gpon_olt-1/1/17").is_err());
    assert!(Interface::parse("gpon_olt-1/01/3").is_err());
    assert!(Interface::parse("gpon_olt-1//3").is_err());
    assert!(Interface::parse("gpon_olt-2/1/3").is_err());
    assert!(Interface::parse("gpon_olt 1/1/3").is_err());
}

#[test]
fn rejects_text_that_names_no_interface() {
    for text in ["", "end", "1/2", "/1/2", "interface gpon_olt-1/1/3 ", "interface vport-1/1/3.5:1"] {
        match Interface::parse(text) {
            Err(Error::Generic(message)) => assert_eq!(message, "Parse interface"),
            Ok(found) => panic!("{text:?} was read as {found:?}"),
        }
    }
}

#[test]
fn failure_is_described() {
    let failure = Interface::parse("nothing").unwrap_err();
    assert_eq!(failure.message(), "Generic Parse interface");
}

#[test]
fn written_interfaces_are_read_back() {
    for slot in 0..=19u8 {
        for port in 1..=16u8 {
            let olt = interface(InterfaceLevel::GponOlt, slot, port, None);
            let line = Command::builder().interface().gpon_olt(&olt).line().clone();
            assert_eq!(Interface::parse(line.as_str()).unwrap(), olt);
            for id in [1u8, 9, 10, 99, 100, 101, 118, 129] {
                let onu = interface(InterfaceLevel::GponOnu, slot, port, Some(id));
                let line = Command::builder().interface().gpon_onu(&onu).line().clone();
                assert_eq!(Interface::parse(line.as_str()).unwrap(), onu);
            }
        }
    }
}

#[test]
fn with_id_changes_the_unit_only() {
    let port = interface(InterfaceLevel::GponOlt, 4, 9, None);
    assert_eq!(port.with_id(12), interface(InterfaceLevel::GponOlt, 4, 9, Some(12)));
    assert_eq!(port.with_id(12).with_id(3).id, Some(3));
}

#[test]
fn default_interface_is_generic() {
    let got = Interface::default();
    assert_eq!(got, interface(InterfaceLevel::Other("generic".to_string()), 0, 0, None));
    assert_eq!(InterfaceLevel::from_kind("pon-onu-mng"), InterfaceLevel::PonOnuMng);
    assert_eq!(InterfaceLevel::from_kind("vport"), InterfaceLevel::Other("vport".to_string()));
}

#[test]
fn head_end_starts_with_one_generic_interface() {
    let olt = Olt::from(OltModel::Titan(Titan::C600));
    assert_eq!(olt.model, OltModel::Titan(Titan::C600));
    assert_eq!(olt.interfaces, vec![Interface::default()]);
    assert_eq!(olt.onu.len(), 0);
    assert_eq!(olt.configuration.0.len(), 0);
    let line = Command::from("interface gpon_olt-1/2/3");
    assert_eq!(Interface::try_from(line).unwrap().port, 3);
    assert_eq!(InterfaceLevel::from("gpon-onu"), InterfaceLevel::GponOnu);
}

#[test]
fn kind_may_be_empty_or_follow_a_line_feed() {
    let bare = Interface::parse("-1/1/3").unwrap();
    assert_eq!(bare, interface(InterfaceLevel::Other(String::new()), 1, 3, None));
    let second = Interface::parse("first line\ngpon_olt-1/1/3").unwrap();
    assert_eq!(second.level, InterfaceLevel::GponOlt);
    let parsed: Interface = "interface gpon-olt_1/4/2".parse().unwrap();
    assert_eq!(parsed, interface(InterfaceLevel::GponOlt, 4, 2, None));
}
