use pon_provision::command::omci::WanMode;
use pon_provision::dump::{read_line, Line};
use pon_provision::legacy::read_onu_line;
use pon_provision::olt::{Interface, InterfaceLevel};
use pon_provision::onu::Vlan;
use regex::Regex;

fn product(parts: &[&[&str]]) -> Vec<String> {
    let mut out = vec![String::new()];
    for choices in parts {
        let mut next = Vec::new();
        for head in &out {
            for choice in choices.iter() {
                next.push(format!("{head}{choice}"));
            }
        }
        out = next;
    }
    out
}

#[test]
fn interface_grammar_agrees_with_its_pattern() {
    let pattern = Regex::new(
        r"(.* )?(?P<level>.*)[_\-]1/(?P<card>[0-9]|1[0-9])/(?P<port>[1-9]|1[0-6])(:(?P<id>[1-9]|[1-9][0-9]|1[0-2][0-9]))?$",
    )
    .unwrap();
    let texts = product(&[
        &["", "interface ", "a b  ", "x\ny ", "pon-onu-mng "],
        &["", "gpon_olt", "gpon-olt", "gpon_onu", "gpon-onu", "pon-onu-mng", "vport", "a-1/2/3", "é"],
        &["-", "_", " ", "/", ""],
        &["1/", "2/", "11/", "1", ""],
        &["0", "9", "10", "19", "20", "01", "", "x"],
        &["/", ":", ""],
        &["1", "9", "10", "16", "17", "0", "08", ""],
        &["", ":1", ":99", ":100", ":105", ":129", ":130", ":0", ":", ":05", ":5 ", ":5\n", ".5:1"],
    ]);
    let mut accepted = 0;
    for text in &texts {
        let got = Interface::parse(text);
        match pattern.captures(text) {
            Some(found) => {
                let want = Interface {
                    level: InterfaceLevel::from(&found["level"]),
                    slot: found["card"].parse().unwrap(),
                    port: found["port"].parse().unwrap(),
                    id: found.name("id").map(|id| id.as_str().parse().unwrap()),
                };
                assert_eq!(got.ok(), Some(want), "on {text:?}");
                accepted += 1;
            }
            None => assert!(got.is_err(), "{text:?} was read as {got:?}"),
        }
    }
    assert!(accepted > 1000);
}

#[test]
fn registering_line_grammar_agrees_with_its_pattern() {
    let pattern =
        Regex::new(r"^onu (?P<id>[1-9]|[1-9][0-9]|1[0-2][0-9]) type (?P<type>.*) sn (?P<sn>.*)$")
            .unwrap();
    let texts = product(&[
        &["onu ", "onu", " onu ", "Onu ", ""],
        &["1", "9", "10", "99", "100", "129", "130", "0", "05", "", "1 2", "x"],
        &[" type ", " type", "type ", "  type ", " sn "],
        &["", "F601", "F 670", "a sn b", " sn ", "x\n"],
        &[" sn ", " sn", "sn ", "", " sn  sn "],
        &["", "ZTEG1", "a b", " sn ", "x sn", "y\n"],
    ]);
    let mut accepted = 0;
    for text in &texts {
        let got = read_onu_line(text);
        match pattern.captures(text) {
            Some(found) => {
                let got = got.unwrap_or_else(|| panic!("{text:?} was not read"));
                assert_eq!(got.id, found["id"].parse::<u8>().unwrap(), "on {text:?}");
                assert_eq!(got.model, &found["type"], "on {text:?}");
                assert_eq!(got.sn, &found["sn"], "on {text:?}");
                accepted += 1;
            }
            None => assert!(got.is_none(), "{text:?} was read"),
        }
    }
    assert!(accepted > 100);
}

#[test]
fn connection_line_grammar_agrees_with_its_pattern() {
    let pattern = Regex::new(
        r"^wan-ip ([0-9]|ipv4) mode (?P<service>(pppoe username (?P<username>.*) password (?P<password>.*))|(dhcp)) vlan-profile (?P<vlan>.*) host [0-9]",
    )
    .unwrap();
    let texts = product(&[
        &["wan-ip ", "wan-ip", " wan-ip "],
        &["1", "0", "ipv4", "", "12"],
        &[" mode ", " mode"],
        &[
            "dhcp",
            "pppoe username u password p",
            "pppoe username a password b password c",
            "pppoe username  password ",
            "pppoe username u vlan-profile 3 host 1 password p",
            "pppoe username u password p vlan-profile 7 host 2 password q",
            "pppoe username u",
            "static",
            "dhcp ",
        ],
        &[" vlan-profile ", " vlan-profile", " vlan-profile 5 host 1 vlan-profile "],
        &["100", "0", "007", "65535", "65536", "", "abc", "1 host 2", "+5", "+", "-5", "5+", "0065536"],
        &[" host ", " host", " host x host "],
        &["1", "9 and more", "x", "", "1 host 2", "12 vlan-profile 8 host 3"],
    ]);
    let mut accepted = 0;
    for text in &texts {
        let got = Vlan::parse(text);
        let want = pattern.captures(text).and_then(|found| {
            let access = match found.name("username") {
                Some(username) => WanMode::PPPoE {
                    username: username.as_str().to_string(),
                    password: found["password"].to_string(),
                },
                None => WanMode::Dhcp,
            };
            found["vlan"].parse::<u16>().ok().map(|id| Vlan { id, service: Some(access) })
        });
        if want.is_some() {
            accepted += 1;
        }
        assert_eq!(got.ok(), want, "on {text:?}");
    }
    assert!(accepted > 100);
}

#[test]
fn marker_grammar_agrees_with_its_pattern() {
    let pattern = Regex::new(r"!<(?P<name>.*)>").unwrap();
    let texts = product(&[
        &["", "  ", "x ", ">", "!<a>"],
        &["!<", "!", "<", ""],
        &["", "/", "xpon", "/xpon", "a>b", "a!<b", " "],
        &[">", "", ">>", "> tail", "<"],
    ]);
    let mut markers = 0;
    for text in &texts {
        let got = read_line(text);
        match pattern.captures(text) {
            Some(found) => {
                let name = &found["name"];
                if name.starts_with('/') {
                    assert!(matches!(got, Line::Close), "on {text:?}");
                } else {
                    match got {
                        Line::Open(read) => assert_eq!(read, name, "on {text:?}"),
                        _ => panic!("{text:?} is no marker"),
                    }
                }
                markers += 1;
            }
            None => assert!(matches!(got, Line::Skip | Line::Entry(..)), "on {text:?}"),
        }
    }
    assert!(markers > 50);
}

fn scrambled(tokens: &[&str], count: usize, longest: usize) -> Vec<String> {
    let mut state: u64 = 0x2545_f491_4f6c_dd1d;
    let mut next = move || {
        state ^= state << 13;
        state ^= state >> 7;
        state ^= state << 17;
        state
    };
    let mut out = Vec::new();
    for _ in 0..count {
        let pieces = 1 + (next() as usize) % longest;
        let mut text = String::new();
        for _ in 0..pieces {
            text.push_str(tokens[(next() as usize) % tokens.len()]);
        }
        out.push(text);
    }
    out
}

#[test]
fn interface_grammar_agrees_on_scrambled_texts() {
    let pattern = Regex::new(
        r"(.* )?(?P<level>.*)[_\-]1/(?P<card>[0-9]|1[0-9])/(?P<port>[1-9]|1[0-6])(:(?P<id>[1-9]|[1-9][0-9]|1[0-2][0-9]))?$",
    )
    .unwrap();
    let tokens = [
        "gpon_olt", "gpon-onu", "pon-onu-mng", "-1/", "_1/", "1", "2", "0", "9", "/", ":", " ", "\n",
        "-", "_", "x", "12", "1/1/1", ":5",
    ];
    let mut accepted = 0;
    for text in scrambled(&tokens, 20000, 7) {
        let got = Interface::parse(&text);
        match pattern.captures(&text) {
            Some(found) => {
                let want = Interface {
                    level: InterfaceLevel::from(&found["level"]),
                    slot: found["card"].parse().unwrap(),
                    port: found["port"].parse().unwrap(),
                    id: found.name("id").map(|id| id.as_str().parse().unwrap()),
                };
                assert_eq!(got.ok(), Some(want), "on {text:?}");
                accepted += 1;
            }
            None => assert!(got.is_err(), "{text:?} was read as {got:?}"),
        }
    }
    assert!(accepted > 100);
}

#[test]
fn registering_line_grammar_agrees_on_scrambled_texts() {
    let pattern =
        Regex::new(r"^onu (?P<id>[1-9]|[1-9][0-9]|1[0-2][0-9]) type (?P<type>.*) sn (?P<sn>.*)$")
            .unwrap();
    let tokens = ["1", "2", "0", " type ", " sn ", " ", "sn", "type", "F601", "ZTEG", "\n", "x"];
    let heads = ["onu 5 type ", "onu 12", "onu ", "onu 129 type F601 sn", ""];
    let mut accepted = 0;
    for (index, tail) in scrambled(&tokens, 20000, 8).iter().enumerate() {
        let text = format!("{}{}", heads[index % heads.len()], tail);
        let got = read_onu_line(&text);
        match pattern.captures(&text) {
            Some(found) => {
                let got = got.unwrap_or_else(|| panic!("{text:?} was not read"));
                assert_eq!(got.id, found["id"].parse::<u8>().unwrap(), "on {text:?}");
                assert_eq!(got.model, &found["type"], "on {text:?}");
                assert_eq!(got.sn, &found["sn"], "on {text:?}");
                accepted += 1;
            }
            None => assert!(got.is_none(), "{text:?} was read"),
        }
    }
    assert!(accepted > 1000);
}

#[test]
fn connection_line_grammar_agrees_on_scrambled_texts() {
    let pattern = Regex::new(
        r"^wan-ip ([0-9]|ipv4) mode (?P<service>(pppoe username (?P<username>.*) password (?P<password>.*))|(dhcp)) vlan-profile (?P<vlan>.*) host [0-9]",
    )
    .unwrap();
    let tokens = [
        " password ", " vlan-profile ", " host ", "1", "2", "0", " ", "u", "p", "dhcp", "host",
        "65535", "7", " vlan-profile 100", " host 1", " password p", "+", " vlan-profile +0",
    ];
    let heads = [
        "wan-ip ipv4 mode dhcp",
        "wan-ip ipv4 mode pppoe username u password p vlan-profile ",
        "wan-ip ipv4",
        "wan-ip 1 mode dhcp",
        "wan-ip 1 mode pppoe username ",
        "wan-ip 1 mode ",
        "wan-ip ",
        "wan-ip 2 mode dhcp vlan-profile 40",
        "wan-ip 3 mode pppoe username u password p vlan-profile ",
    ];
    let mut accepted = 0;
    for (index, tail) in scrambled(&tokens, 20000, 9).iter().enumerate() {
        let text = format!("{}{}", heads[index % heads.len()], tail);
        let got = Vlan::parse(&text);
        let want = pattern.captures(&text).and_then(|found| {
            let access = match found.name("username") {
                Some(username) => WanMode::PPPoE {
                    username: username.as_str().to_string(),
                    password: found["password"].to_string(),
                },
                None => WanMode::Dhcp,
            };
            found["vlan"].parse::<u16>().ok().map(|id| Vlan { id, service: Some(access) })
        });
        if want.is_some() {
            accepted += 1;
        }
        assert_eq!(got.ok(), want, "on {text:?}");
    }
    assert!(accepted > 100, "only {accepted} lines were read");
}

#[test]
fn marker_grammar_agrees_on_scrambled_texts() {
    let pattern = Regex::new(r"!<(?P<name>.*)>").unwrap();
    let tokens = ["!<", ">", "/", "!", "<", "xpon", " ", "a"];
    let mut markers = 0;
    for text in scrambled(&tokens, 20000, 7) {
        let got = read_line(&text);
        match pattern.captures(&text) {
            Some(found) => {
                let name = &found["name"];
                if name.starts_with('/') {
                    assert!(matches!(got, Line::Close), "on {text:?}");
                } else {
                    match got {
                        Line::Open(read) => assert_eq!(read, name, "on {text:?}"),
                        _ => panic!("{text:?} is no marker"),
                    }
                }
                markers += 1;
            }
            None => assert!(matches!(got, Line::Skip | Line::Entry(..)), "on {text:?}"),
        }
    }
    assert!(markers > 100);
}
