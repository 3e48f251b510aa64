use crate::command::omci::{WanMode, WanModeView};
use crate::error::Error;
use crate::onu::{Vlan, VlanView};
use crate::text::{
    chars_of, contains_char, count_leading_digits, digit_of, find_last, has_char, is_digit,
    last_occurrence, leading_digits, numeral_value, occurs_at, read_number_up_to, read_numeral,
    signed_digits_value, stands_at, text_of,
};
use vstd::prelude::*;

verus! {

/// What a line that registers a unit says: the unit's number, its hardware
/// model and its serial number.
pub struct OnuRecord {
    pub id: u8,
    pub model: String,
    pub sn: String,
}

/// A record as a mathematical value.
pub struct OnuRecordView {
    pub id: u8,
    pub model: Seq<char>,
    pub sn: Seq<char>,
}

impl View for OnuRecord {
    type V = OnuRecordView;

    open spec fn view(&self) -> OnuRecordView {
        OnuRecordView { id: self.id, model: self.model@, sn: self.sn@ }
    }
}

/// What the line `onu <id> type <model> sn <serial>` says, where `t` is such
/// a line: the number lies from 1 to 129, the model ends at the last ` sn `,
/// and no line feed stands in the line.
pub open spec fn parse_onu_line(t: Seq<char>) -> Option<OnuRecordView> {
    let n = t.len() as int;
    let d = leading_digits(t.subrange(4, n)) as int;
    let body = 4 + d + 6;
    if occurs_at(t, 0, "onu "@) && occurs_at(t, 4 + d, " type "@) && !has_char(t, '\n') {
        match (numeral_value(t.subrange(4, 4 + d)), last_occurrence(t, " sn "@, body, n - 4)) {
            (Some(id), Some(k)) => if 1 <= id <= 129 {
                Some(
                    OnuRecordView {
                        id: id as u8,
                        model: t.subrange(body, k),
                        sn: t.subrange(k + 4, n),
                    },
                )
            } else {
                None
            },
            _ => None,
        }
    } else {
        None
    }
}

/// Reads a line that registers a unit.
pub fn read_onu_line(line: &str) -> (out: Option<OnuRecord>)
    ensures
        match out {
            Some(record) => parse_onu_line(line@) == Some(record@),
            None => parse_onu_line(line@) is None,
        },
{
    proof {
        reveal_strlit("onu ");
        reveal_strlit(" type ");
        reveal_strlit(" sn ");
    }
    let t = chars_of(line);
    let n = t.len();
    let onu = chars_of("onu ");
    let kind = chars_of(" type ");
    let serial = chars_of(" sn ");
    if !stands_at(&t, 0, &onu) {
        return None;
    }
    let d = count_leading_digits(&t, 4);
    if !stands_at(&t, 4 + d, &kind) || contains_char(&t, '\n') {
        return None;
    }
    let body = 4 + d + 6;
    let id = match read_numeral(&t, 4, 4 + d) {
        Some(v) => v,
        None => {
            return None;
        },
    };
    let k = match find_last(&t, &serial, body, n - 4) {
        Some(k) => k,
        None => {
            return None;
        },
    };
    if id < 1 || id > 129 {
        return None;
    }
    Some(OnuRecord { id: id as u8, model: text_of(&t, body, k, line), sn: text_of(&t, k + 4, n, line) })
}

/// ` host ` and a digit stand in `t` at `at`.
pub open spec fn host_at(t: Seq<char>, at: int) -> bool {
    occurs_at(t, at, " host "@) && at + 6 < t.len() && is_digit(t[at + 6])
}

/// The greatest index in `lo..=hi` at which ` host ` and a digit stand.
pub open spec fn last_host(t: Seq<char>, lo: int, hi: int) -> Option<int>
    decreases hi - lo + 1,
{
    if hi < lo {
        None
    } else if host_at(t, hi) {
        Some(hi)
    } else {
        last_host(t, lo, hi - 1)
    }
}

/// The VLAN that `digits` names, with the way of access `mode`: `digits`
/// writes a number up to 65535 in full, with or without `+` before it and
/// zeros at its front.
pub open spec fn vlan_of(digits: Seq<char>, mode: WanModeView) -> Option<VlanView> {
    match signed_digits_value(digits) {
        Some(v) => if v <= 65535 {
            Some(VlanView { id: v as u16, service: Some(mode) })
        } else {
            None
        },
        None => None,
    }
}

/// Where the way of access stands in a line that sets up a connection:
/// behind `wan-ip <digit> mode `, as a dump writes it, or behind
/// `wan-ip ipv4 mode `, as a script writes it. `None` where `t` starts
/// with neither.
pub open spec fn wan_head(t: Seq<char>) -> Option<int> {
    if occurs_at(t, 0, "wan-ip "@) && t.len() > 7 && is_digit(t[7]) && occurs_at(t, 8, " mode "@) {
        Some(14)
    } else if occurs_at(t, 0, "wan-ip ipv4 mode "@) {
        Some(17)
    } else {
        None
    }
}

/// What a line that sets up a unit's connection says, where `t` starts as
/// such a line: `wan-ip <digit> mode ` or `wan-ip ipv4 mode `, then `dhcp`
/// or `pppoe username <user> password <password>`, then
/// ` vlan-profile <vlan> host <digit>`. The VLAN ends at the last ` host `
/// that a digit follows, the password at the last ` vlan-profile ` before
/// it, the user at the last ` password ` before that; the VLAN is a number
/// up to 65535, and no line feed stands in the line.
pub open spec fn parse_wan_line(t: Seq<char>) -> Option<VlanView> {
    let n = t.len() as int;
    match wan_head(t) {
        Some(m) => if has_char(t, '\n') {
            None
        } else if occurs_at(t, m, "dhcp vlan-profile "@) {
            match last_host(t, m + 18, n - 7) {
                Some(k) => vlan_of(t.subrange(m + 18, k), WanModeView::Dhcp),
                None => None,
            }
        } else if occurs_at(t, m, "pppoe username "@) {
            match last_host(t, m + 15, n - 7) {
                Some(k) => match last_occurrence(t, " vlan-profile "@, m + 25, k - 14) {
                    Some(j) => match last_occurrence(t, " password "@, m + 15, j - 10) {
                        Some(i) => vlan_of(
                            t.subrange(j + 14, k),
                            WanModeView::PPPoE {
                                username: t.subrange(m + 15, i),
                                password: t.subrange(i + 10, j),
                            },
                        ),
                        None => None,
                    },
                    None => None,
                },
                None => None,
            }
        } else {
            None
        },
        None => None,
    }
}

/// The greatest index from `lo` to `hi` at which ` host ` and a digit stand.
fn find_last_host(t: &Vec<char>, lo: usize, hi: usize) -> (out: Option<usize>)
    ensures
        match out {
            Some(k) => last_host(t@, lo as int, hi as int) == Some(k as int) && lo <= k <= hi
                && k + 6 < t.len(),
            None => last_host(t@, lo as int, hi as int) is None,
        },
{
    proof {
        reveal_strlit(" host ");
    }
    if hi < lo {
        return None;
    }
    let host = chars_of(" host ");
    let mut k: usize = hi;
    loop
        invariant
            lo <= k <= hi,
            host@ == " host "@,
            host@.len() == 6,
            last_host(t@, lo as int, hi as int) == last_host(t@, lo as int, k as int),
        decreases k - lo,
    {
        if t.len() >= 7 && k <= t.len() - 7 && stands_at(t, k, &host) && digit_of(
            t[k + 6],
        ).is_some() {
            return Some(k);
        }
        if k == lo {
            assert(last_host(t@, lo as int, lo - 1) is None);
            return None;
        }
        k = k - 1;
    }
}

/// Reads the VLAN that `t` names from `from` up to `to`.
fn read_vlan(t: &Vec<char>, from: usize, to: usize, mode: WanMode) -> (out: Option<Vlan>)
    requires
        from <= to <= t.len(),
    ensures
        match out {
            Some(vlan) => vlan_of(t@.subrange(from as int, to as int), mode@) == Some(vlan@),
            None => vlan_of(t@.subrange(from as int, to as int), mode@) is None,
        },
{
    match read_number_up_to(t, from, to, 65535) {
        Some(id) => Some(Vlan { id, service: Some(mode) }),
        None => None,
    }
}

/// The failure of reading a connection line.
fn vlan_failure() -> (out: Error)
    ensures
        out->Generic_0@ == "Parse vlan"@,
{
    Error::Generic(String::from_str("Parse vlan"))
}

/// Where the way of access stands in `t`, if `t` starts as a line that
/// sets up a connection.
fn wan_start(t: &Vec<char>) -> (out: Option<usize>)
    ensures
        match out {
            Some(m) => wan_head(t@) == Some(m as int) && (m == 14 || m == 17) && m <= t.len(),
            None => wan_head(t@) is None,
        },
{
    proof {
        reveal_strlit("wan-ip ");
        reveal_strlit(" mode ");
        reveal_strlit("wan-ip ipv4 mode ");
    }
    let wan = chars_of("wan-ip ");
    let mode = chars_of(" mode ");
    let script = chars_of("wan-ip ipv4 mode ");
    if stands_at(t, 0, &wan) && t.len() > 7 && digit_of(t[7]).is_some() && stands_at(t, 8, &mode) {
        Some(14)
    } else if stands_at(t, 0, &script) {
        Some(17)
    } else {
        None
    }
}

impl Vlan {
    /// Reads the VLAN and the way of access from a line that sets up a
    /// unit's connection. Fails where `line` is no such line.
    pub fn parse(line: &str) -> (out: Result<Vlan, Error>)
        ensures
            match out {
                Ok(vlan) => parse_wan_line(line@) == Some(vlan@),
                Err(e) => parse_wan_line(line@) is None && e->Generic_0@ == "Parse vlan"@,
            },
    {
        proof {
            reveal_strlit("wan-ip ");
            reveal_strlit(" mode ");
            reveal_strlit("wan-ip ipv4 mode ");
            reveal_strlit("dhcp vlan-profile ");
            reveal_strlit("pppoe username ");
            reveal_strlit(" vlan-profile ");
            reveal_strlit(" password ");
        }
        let t = chars_of(line);
        let n = t.len();
        let m = match wan_start(&t) {
            Some(m) => m,
            None => {
                return Err(vlan_failure());
            },
        };
        if contains_char(&t, '\n') {
            return Err(vlan_failure());
        }
        let dhcp = chars_of("dhcp vlan-profile ");
        let pppoe = chars_of("pppoe username ");
        let profile = chars_of(" vlan-profile ");
        let password = chars_of(" password ");
        if stands_at(&t, m, &dhcp) {
            let k = match find_last_host(&t, m + 18, n - 7) {
                Some(k) => k,
                None => {
                    return Err(vlan_failure());
                },
            };
            match read_vlan(&t, m + 18, k, WanMode::Dhcp) {
                Some(vlan) => Ok(vlan),
                None => Err(vlan_failure()),
            }
        } else if stands_at(&t, m, &pppoe) {
            let k = match find_last_host(&t, m + 15, n - 7) {
                Some(k) => k,
                None => {
                    return Err(vlan_failure());
                },
            };
            let j = match find_last(&t, &profile, m + 25, k - 14) {
                Some(j) => j,
                None => {
                    return Err(vlan_failure());
                },
            };
            let i = match find_last(&t, &password, m + 15, j - 10) {
                Some(i) => i,
                None => {
                    return Err(vlan_failure());
                },
            };
            let access = WanMode::PPPoE {
                username: text_of(&t, m + 15, i, line),
                password: text_of(&t, i + 10, j, line),
            };
            match read_vlan(&t, j + 14, k, access) {
                Some(vlan) => Ok(vlan),
                None => Err(vlan_failure()),
            }
        } else {
            Err(vlan_failure())
        }
    }
}

impl TryFrom<&crate::command::Command> for Vlan {
    type Error = Error;

    fn try_from(value: &crate::command::Command) -> (out: Result<Vlan, Error>)
        ensures
            match out {
                Ok(vlan) => parse_wan_line(value@) == Some(vlan@),
                Err(e) => parse_wan_line(value@) is None && e->Generic_0@ == "Parse vlan"@,
            },
    {
        Vlan::parse(value.as_str())
    }
}

impl vstd::std_specs::convert::TryFromSpecImpl<&crate::command::Command> for Vlan {
    open spec fn obeys_try_from_spec() -> bool {
        false
    }

    open spec fn try_from_spec(v: &crate::command::Command) -> Result<Vlan, Error> {
        arbitrary()
    }
}

} // verus!
