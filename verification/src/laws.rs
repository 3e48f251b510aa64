use crate::configuration::{position, position_from, sections_text, Tree};
use crate::dump::parse_dump;
use crate::extract::{
    connection_services, extract, extract_from, extract_step, kids_of, registered_units,
    same_unit, unit_from,
};
use crate::command::omci::WanModeView;
use crate::legacy::{
    host_at, last_host, parse_onu_line, parse_wan_line, vlan_of, wan_head, OnuRecordView,
};
use crate::lines::lines_of;
use crate::olt::{
    lemma_olt_line_round_trip, lemma_onu_line_round_trip, InterfaceView, LevelView,
};
use crate::onu::{OnuView, ServiceView, VlanView};
use crate::round_trip::{lemma_text_round_trip, text_config};
use crate::script::{
    management_block, management_lines, olt_block, onu_block, onu_line, provisioning_script,
    service_line, service_lines, wan_ip_line, web_access_line,
};
use crate::text::{
    decimal, has_char, is_digit, last_occurrence, lemma_decimal_digits_value,
    lemma_last_occurrence,
    lemma_leading_digits, lemma_numeral_of_decimal, occurs_at,
};
use vstd::prelude::*;

verus! {

/// The address of a unit that the equipment can hold: the slot up to 19, the
/// port from 1 to 16, the unit from 1 to 129.
pub open spec fn unit_address(i: InterfaceView) -> bool {
    i.slot <= 19 && 1 <= i.port <= 16 && i.id is Some && 1 <= i.id->0 <= 129
}

/// The line that registers a unit is read back as what it was written
/// from, where the unit's number lies from 1 to 129, no line feed stands in
/// model or serial number, and no space in the serial number.
pub proof fn lemma_onu_line_read_back(id: u8, model: Seq<char>, sn: Seq<char>)
    requires
        1 <= id <= 129,
        !has_char(model, '\n'),
        !has_char(sn, '\n'),
        !has_char(sn, ' '),
    ensures
        parse_onu_line(onu_line(id, model, sn)) == Some(OnuRecordView { id, model, sn }),
{
    reveal_strlit("onu ");
    reveal_strlit(" type ");
    reveal_strlit(" sn ");
    let digits = decimal(id as nat);
    lemma_decimal_digits_value(id as nat);
    lemma_numeral_of_decimal(id as nat);
    let t = onu_line(id, model, sn);
    let n = t.len() as int;
    let d = digits.len() as int;
    let rest = " type "@ + model + " sn "@ + sn;
    assert(t.subrange(0, 4) =~= "onu "@);
    assert(t.subrange(4, n) =~= digits + rest);
    assert(rest[0] == ' ');
    lemma_leading_digits(digits, rest);
    assert(t.subrange(4, 4 + d) =~= digits);
    assert(t.subrange(4 + d, 4 + d + 6) =~= " type "@);
    let body = 4 + d + 6;
    let at = body + model.len();
    assert(t.subrange(at, at + 4) =~= " sn "@);
    assert forall|k: int| at < k <= n - 4 implies !occurs_at(t, k, " sn "@) by {
        if occurs_at(t, k, " sn "@) {
            assert(t.subrange(k, k + 4)[3] == ' ');
            assert(t[k + 3] == sn[k + 3 - at - 4]);
        }
    }
    lemma_last_occurrence(t, " sn "@, body, n - 4, at);
    assert(t.subrange(body, at) =~= model);
    assert(t.subrange(at + 4, n) =~= sn);
    assert forall|i: int| 0 <= i < n implies t[i] != '\n' by {
        if i < 4 {
        } else if i < 4 + d {
            assert(t[i] == digits[i - 4]);
            assert(crate::text::is_digit(digits[i - 4]));
        } else if i < body {
        } else if i < at {
            assert(t[i] == model[i - body]);
        } else if i < at + 4 {
        } else {
            assert(t[i] == sn[i - at - 4]);
        }
    }
}

/// The block by which a script registers a unit is read back as that unit:
/// at the same slot, port and number, at the level of the head end's ports,
/// with the same model and serial number, and with no service.
pub proof fn lemma_registration_is_read_back(units: Seq<OnuView>, o: OnuView)
    requires
        unit_address(o.interface),
        !has_char(o.model, '\n'),
        !has_char(o.sn, '\n'),
        !has_char(o.sn, ' '),
    ensures
        extract_step(units, olt_block(o)) == units.push(
            OnuView {
                interface: InterfaceView { level: LevelView::GponOlt, ..o.interface },
                model: o.model,
                sn: o.sn,
                services: Seq::empty(),
            },
        ),
{
    let block = olt_block(o);
    let port = InterfaceView {
        level: LevelView::GponOlt,
        slot: o.interface.slot,
        port: o.interface.port,
        id: None,
    };
    lemma_olt_line_round_trip(o.interface.slot, o.interface.port);
    lemma_onu_line_read_back(o.interface.id->0, o.model, o.sn);
    let kids = kids_of(block);
    assert(kids.len() == 1);
    assert(kids[0].line == onu_line(o.interface.id->0, o.model, o.sn));
    assert(registered_units(port, kids, 0) =~= Seq::empty());
    reveal_with_fuel(registered_units, 2);
    let unit = OnuView {
        interface: InterfaceView { level: LevelView::GponOlt, ..o.interface },
        model: o.model,
        sn: o.sn,
        services: Seq::empty(),
    };
    assert(registered_units(port, kids, 1) =~= seq![unit]);
    assert(units + seq![unit] =~= units.push(unit));
}

/// Where ` host ` and a digit stand at `at` and nowhere behind it up to
/// `hi`, `at` is where they stand last.
proof fn lemma_last_host(t: Seq<char>, lo: int, hi: int, at: int)
    requires
        lo <= at <= hi,
        host_at(t, at),
        forall|k: int| at < k <= hi ==> !host_at(t, k),
    ensures
        last_host(t, lo, hi) == Some(at),
    decreases hi - at,
{
    if hi > at {
        lemma_last_host(t, lo, hi - 1, at);
    }
}

/// A line that ends in ` host ` and digits has its last ` host ` there.
proof fn lemma_host_at_end(t: Seq<char>, lo: int, at: int)
    requires
        0 <= lo <= at,
        occurs_at(t, at, " host "@),
        at + 6 < t.len(),
        forall|k: int| at + 6 <= k < t.len() ==> is_digit(#[trigger] t[k]),
    ensures
        last_host(t, lo, t.len() - 7) == Some(at),
{
    reveal_strlit(" host ");
    let word = t.subrange(at, at + 6);
    assert(word[1] == 'h' && word[2] == 'o' && word[3] == 's' && word[4] == 't' && word[5] == ' ');
    assert(t[at + 1] == word[1] && t[at + 2] == word[2] && t[at + 3] == word[3] && t[at + 4]
        == word[4] && t[at + 5] == word[5]);
    assert(is_digit(t[at + 6]));
    assert forall|k: int| at < k <= t.len() - 7 implies !host_at(t, k) by {
        if occurs_at(t, k, " host "@) {
            let found = t.subrange(k, k + 6);
            assert(found[0] == ' ' && found[1] == 'h');
            assert(t[k] == found[0] && t[k + 1] == found[1]);
            if k == at + 5 {
                assert(is_digit(t[k + 1]));
            } else if k >= at + 6 {
                assert(is_digit(t[k]));
            }
        }
    }
    lemma_last_host(t, lo, t.len() - 7, at);
}

/// A numeral up to 65535 names that VLAN.
proof fn lemma_vlan_of_decimal(vlan: u16, mode: WanModeView)
    ensures
        vlan_of(decimal(vlan as nat), mode) == Some(VlanView { id: vlan, service: Some(mode) }),
        1 <= decimal(vlan as nat).len() <= 5,
{
    lemma_decimal_digits_value(vlan as nat);
    let digits = decimal(vlan as nat);
    assert(is_digit(digits[0]));
}

/// No space and no line feed stands in `s`.
pub open spec fn one_token(s: Seq<char>) -> bool {
    !has_char(s, ' ') && !has_char(s, '\n')
}

/// The credentials of a way of access are single tokens.
pub open spec fn plain_access(mode: WanModeView) -> bool {
    match mode {
        WanModeView::Dhcp => true,
        WanModeView::PPPoE { username, password } => one_token(username) && one_token(password),
    }
}

/// The line by which a script sets up a DHCP connection is read back.
proof fn lemma_dhcp_line_read_back(k: u8, vlan: u16)
    ensures
        parse_wan_line(wan_ip_line(k, vlan, WanModeView::Dhcp)) == Some(
            VlanView { id: vlan, service: Some(WanModeView::Dhcp) },
        ),
{
    reveal_strlit("wan-ip ");
    reveal_strlit("wan-ip ipv4");
    reveal_strlit(" ");
    reveal_strlit("mode dhcp");
    reveal_strlit("wan-ip ipv4 mode ");
    reveal_strlit("dhcp vlan-profile ");
    reveal_strlit(" vlan-profile ");
    reveal_strlit(" host ");
    let digits = decimal(vlan as nat);
    let host = decimal(k as nat);
    lemma_vlan_of_decimal(vlan, WanModeView::Dhcp);
    lemma_decimal_digits_value(vlan as nat);
    lemma_decimal_digits_value(k as nat);
    let head = "wan-ip ipv4"@ + " "@ + "mode dhcp"@ + " vlan-profile "@;
    assert(head.len() == 35);
    assert(head =~= "wan-ip ipv4 mode "@ + "dhcp vlan-profile "@);
    let t = wan_ip_line(k, vlan, WanModeView::Dhcp);
    assert(t =~= head + digits + " host "@ + host);
    let n = t.len() as int;
    let at = 35 + digits.len() as int;
    assert(t.subrange(0, 17) =~= "wan-ip ipv4 mode "@);
    assert(t[7] == 'i');
    assert(wan_head(t) == Some(17int));
    assert(t.subrange(17, 35) =~= "dhcp vlan-profile "@);
    assert(t.subrange(at, at + 6) =~= " host "@);
    assert forall|i: int| at + 6 <= i < n implies is_digit(#[trigger] t[i]) by {
        assert(t[i] == host[i - at - 6]);
    }
    lemma_host_at_end(t, 35, at);
    assert(t.subrange(35, at) =~= digits);
    assert forall|i: int| 0 <= i < n implies t[i] != '\n' by {
        if i < 35 {
            assert(t[i] == head[i]);
        } else if i < at {
            assert(t[i] == digits[i - 35]);
            assert(is_digit(digits[i - 35]));
        } else if i < at + 6 {
            assert(t[i] == " host "@[i - at]);
        } else {
            assert(is_digit(t[i]));
        }
    }
}

/// Where ` vlan-profile ` stands at `at` and at most five characters follow
/// it up to `hi`, it stands there last.
proof fn lemma_profile_last(t: Seq<char>, lo: int, at: int, hi: int)
    requires
        lo <= at <= hi <= at + 5,
        occurs_at(t, at, " vlan-profile "@),
    ensures
        last_occurrence(t, " vlan-profile "@, lo, hi) == Some(at),
{
    reveal_strlit(" vlan-profile ");
    let word = t.subrange(at, at + 14);
    assert(word[1] == 'v' && word[2] == 'l' && word[3] == 'a' && word[4] == 'n' && word[5] == '-');
    assert(t[at + 1] == word[1] && t[at + 2] == word[2] && t[at + 3] == word[3] && t[at + 4]
        == word[4] && t[at + 5] == word[5]);
    assert forall|j: int| at < j <= hi implies !occurs_at(t, j, " vlan-profile "@) by {
        if occurs_at(t, j, " vlan-profile "@) {
            assert(t.subrange(j, j + 14)[0] == ' ');
            assert(t[j] == ' ');
        }
    }
    lemma_last_occurrence(t, " vlan-profile "@, lo, hi, at);
}

/// Where ` password ` stands at `at` and a text without a space follows
/// it, it stands there last up to the end of that text.
proof fn lemma_password_last(t: Seq<char>, lo: int, at: int, secret: Seq<char>)
    requires
        lo <= at,
        occurs_at(t, at, " password "@),
        occurs_at(t, at + 10, secret),
        !has_char(secret, ' '),
    ensures
        last_occurrence(t, " password "@, lo, at + secret.len()) == Some(at),
{
    reveal_strlit(" password ");
    let word = t.subrange(at, at + 10);
    assert(word[1] == 'p' && word[2] == 'a' && word[3] == 's' && word[4] == 's' && word[5] == 'w'
        && word[6] == 'o' && word[7] == 'r' && word[8] == 'd');
    assert(t[at + 1] == word[1] && t[at + 2] == word[2] && t[at + 3] == word[3] && t[at + 4]
        == word[4] && t[at + 5] == word[5] && t[at + 6] == word[6] && t[at + 7] == word[7]
        && t[at + 8] == word[8]);
    let held = t.subrange(at + 10, at + 10 + secret.len());
    assert forall|i: int| at < i <= at + secret.len() implies !occurs_at(t, i, " password "@) by {
        if occurs_at(t, i, " password "@) {
            let found = t.subrange(i, i + 10);
            assert(found[0] == ' ' && found[9] == ' ');
            assert(t[i] == found[0] && t[i + 9] == found[9]);
            if i == at + 9 {
                assert(t[i + 9] == held[8]);
                assert(secret[8] == ' ');
            } else if i >= at + 10 {
                assert(t[i] == held[i - at - 10]);
                assert(secret[i - at - 10] == ' ');
            }
        }
    }
    lemma_last_occurrence(t, " password "@, lo, at + secret.len(), at);
}

/// A text made of eight parts, none of which holds a line feed, holds none.
proof fn lemma_parts_hold_no_feed(t: Seq<char>, parts: Seq<Seq<char>>, n: nat)
    requires
        n <= parts.len(),
        t == flat(parts, n),
        forall|i: int| 0 <= i < parts.len() ==> !has_char(#[trigger] parts[i], '\n'),
    ensures
        !has_char(t, '\n'),
    decreases n,
{
    if n == 0 {
    } else {
        let front = flat(parts, (n - 1) as nat);
        lemma_parts_hold_no_feed(front, parts, (n - 1) as nat);
        let last = parts[n - 1];
        assert(!has_char(last, '\n'));
        if has_char(t, '\n') {
            let k = choose|k: int| 0 <= k < t.len() && t[k] == '\n';
            if k < front.len() {
                assert(front[k] == '\n');
            } else {
                assert(last[k - front.len()] == '\n');
            }
        }
    }
}

/// The first `n` of `parts`, one after the other.
pub open spec fn flat(parts: Seq<Seq<char>>, n: nat) -> Seq<char>
    decreases n,
{
    if n == 0 || n > parts.len() {
        Seq::empty()
    } else {
        flat(parts, (n - 1) as nat) + parts[n - 1]
    }
}

/// Digits hold no line feed.
proof fn lemma_digits_hold_no_feed(n: nat)
    ensures
        !has_char(decimal(n), '\n'),
{
    lemma_decimal_digits_value(n);
    if has_char(decimal(n), '\n') {
        let k = choose|k: int| 0 <= k < decimal(n).len() && decimal(n)[k] == '\n';
        assert(is_digit(decimal(n)[k]));
    }
}

/// A line in which the parts of a PPPoE connection stand one after the
/// other, as a script writes them, is read as those parts.
proof fn lemma_pppoe_shape(
    t: Seq<char>,
    user: Seq<char>,
    secret: Seq<char>,
    digits: Seq<char>,
    i0: int,
    j0: int,
    at: int,
)
    requires
        i0 == 32 + user.len(),
        j0 == i0 + 10 + secret.len(),
        at == j0 + 14 + digits.len(),
        !has_char(secret, ' '),
        digits.len() <= 5,
        !has_char(t, '\n'),
        occurs_at(t, 0, "wan-ip ipv4 mode "@),
        occurs_at(t, 17, "pppoe username "@),
        t.subrange(32, i0) == user,
        occurs_at(t, i0, " password "@),
        occurs_at(t, i0 + 10, secret),
        occurs_at(t, j0, " vlan-profile "@),
        t.subrange(j0 + 14, at) == digits,
        occurs_at(t, at, " host "@),
        t.len() > at + 6,
        forall|i: int| at + 6 <= i < t.len() ==> is_digit(#[trigger] t[i]),
    ensures
        parse_wan_line(t) == vlan_of(
            digits,
            WanModeView::PPPoE { username: user, password: secret },
        ),
{
    assert(wan_head(t) == Some(17int)) by {
        reveal_strlit("wan-ip ipv4 mode ");
        assert(t.subrange(0, 17)[7] == 'i');
        assert(!is_digit(t[7]));
    }
    assert(!occurs_at(t, 17, "dhcp vlan-profile "@)) by {
        reveal_strlit("dhcp vlan-profile ");
        reveal_strlit("pppoe username ");
        if occurs_at(t, 17, "dhcp vlan-profile "@) {
            assert(t.subrange(17, 35)[0] == 'd');
            assert(t.subrange(17, 32)[0] == 'p');
        }
    }
    lemma_host_at_end(t, 32, at);
    lemma_profile_last(t, 42, j0, at - 14);
    lemma_password_last(t, 32, i0, secret);
    assert(t.subrange(i0 + 10, j0) == secret);
}

/// The line by which a script sets up a PPPoE connection is read back,
/// where user and password are single tokens.
#[verifier::rlimit(40)]
proof fn lemma_pppoe_line_read_back(k: u8, vlan: u16, user: Seq<char>, secret: Seq<char>)
    requires
        one_token(user),
        one_token(secret),
    ensures
        parse_wan_line(
            wan_ip_line(k, vlan, WanModeView::PPPoE { username: user, password: secret }),
        ) == Some(
            VlanView {
                id: vlan,
                service: Some(WanModeView::PPPoE { username: user, password: secret }),
            },
        ),
{
    let mode = WanModeView::PPPoE { username: user, password: secret };
    let digits = decimal(vlan as nat);
    let host = decimal(k as nat);
    let t = wan_ip_line(k, vlan, mode);
    lemma_vlan_of_decimal(vlan, mode);
    lemma_decimal_digits_value(k as nat);
    lemma_pppoe_line_parts(k, vlan, user, secret);
    let i0 = 32 + user.len() as int;
    let j0 = i0 + 10 + secret.len() as int;
    let at = j0 + 14 + digits.len() as int;
    assert forall|i: int| at + 6 <= i < t.len() implies is_digit(#[trigger] t[i]) by {
        assert(t[i] == t.subrange(at + 6, t.len() as int)[i - at - 6]);
    }
    lemma_pppoe_shape(t, user, secret, digits, i0, j0, at);
}

/// Where the parts of the line by which a script sets up a PPPoE
/// connection stand in it.
proof fn lemma_pppoe_line_parts(k: u8, vlan: u16, user: Seq<char>, secret: Seq<char>)
    requires
        one_token(user),
        one_token(secret),
    ensures
        ({
            let t = wan_ip_line(k, vlan, WanModeView::PPPoE { username: user, password: secret });
            let digits = decimal(vlan as nat);
            let host = decimal(k as nat);
            let i0 = 32 + user.len() as int;
            let j0 = i0 + 10 + secret.len() as int;
            let at = j0 + 14 + digits.len() as int;
            &&& t.len() == at + 6 + host.len()
            &&& occurs_at(t, 0, "wan-ip ipv4 mode "@)
            &&& occurs_at(t, 17, "pppoe username "@)
            &&& t.subrange(32, i0) == user
            &&& occurs_at(t, i0, " password "@)
            &&& occurs_at(t, i0 + 10, secret)
            &&& t.subrange(i0 + 10, j0) == secret
            &&& occurs_at(t, j0, " vlan-profile "@)
            &&& t.subrange(j0 + 14, at) == digits
            &&& occurs_at(t, at, " host "@)
            &&& t.subrange(at + 6, t.len() as int) == host
            &&& !has_char(t, '\n')
        }),
{
    reveal_strlit("wan-ip ipv4");
    reveal_strlit(" ");
    reveal_strlit("mode pppoe username ");
    reveal_strlit("wan-ip ipv4 mode ");
    reveal_strlit("pppoe username ");
    reveal_strlit(" password ");
    reveal_strlit(" vlan-profile ");
    reveal_strlit(" host ");
    let mode = WanModeView::PPPoE { username: user, password: secret };
    let digits = decimal(vlan as nat);
    let host = decimal(k as nat);
    lemma_digits_hold_no_feed(vlan as nat);
    lemma_digits_hold_no_feed(k as nat);
    let head = "wan-ip ipv4 mode "@ + "pppoe username "@;
    assert("wan-ip ipv4"@ + " "@ + "mode pppoe username "@ =~= head);
    let parts = seq![head, user, " password "@, secret, " vlan-profile "@, digits, " host "@, host];
    reveal_with_fuel(flat, 9);
    let t = wan_ip_line(k, vlan, mode);
    assert(t =~= flat(parts, 8));
    let i0 = 32 + user.len() as int;
    let j0 = i0 + 10 + secret.len() as int;
    let at = j0 + 14 + digits.len() as int;
    assert(t.subrange(0, 17) =~= "wan-ip ipv4 mode "@);
    assert(t.subrange(17, 32) =~= "pppoe username "@);
    assert(t.subrange(32, i0) =~= user);
    assert(t.subrange(i0, i0 + 10) =~= " password "@);
    assert(t.subrange(i0 + 10, j0) =~= secret);
    assert(t.subrange(j0, j0 + 14) =~= " vlan-profile "@);
    assert(t.subrange(j0 + 14, at) =~= digits);
    assert(t.subrange(at, at + 6) =~= " host "@);
    assert(t.subrange(at + 6, t.len() as int) =~= host);
    assert forall|i: int| 0 <= i < parts.len() implies !has_char(#[trigger] parts[i], '\n') by {
        if i == 0 {
            if has_char(head, '\n') {
                let k = choose|k: int| 0 <= k < head.len() && head[k] == '\n';
            }
        } else if i == 2 {
            if has_char(" password "@, '\n') {
                let k = choose|k: int| 0 <= k < " password "@.len() && " password "@[k] == '\n';
            }
        } else if i == 4 {
            if has_char(" vlan-profile "@, '\n') {
                let k = choose|k: int|
                    0 <= k < " vlan-profile "@.len() && " vlan-profile "@[k] == '\n';
            }
        } else if i == 6 {
            if has_char(" host "@, '\n') {
                let k = choose|k: int| 0 <= k < " host "@.len() && " host "@[k] == '\n';
            }
        }
    }
    lemma_parts_hold_no_feed(t, parts, 8);
}

/// The line by which a script sets up a connection is read back as the
/// VLAN and the way of access it was written from, where the credentials
/// are single tokens.
pub proof fn lemma_connection_line_read_back(k: u8, vlan: u16, mode: WanModeView)
    requires
        plain_access(mode),
    ensures
        parse_wan_line(wan_ip_line(k, vlan, mode)) == Some(
            VlanView { id: vlan, service: Some(mode) },
        ),
{
    match mode {
        WanModeView::Dhcp => {
            lemma_dhcp_line_read_back(k, vlan);
        },
        WanModeView::PPPoE { username, password } => {
            lemma_pppoe_line_read_back(k, vlan, username, password);
        },
    }
}

/// What the first `n` lines set up depends on those lines alone.
proof fn lemma_connection_services_front(kids: Seq<Tree>, whole: Seq<Tree>, n: nat)
    requires
        n <= kids.len() <= whole.len(),
        forall|i: int| 0 <= i < kids.len() ==> kids[i] == whole[i],
    ensures
        connection_services(whole, n) == connection_services(kids, n),
    decreases n,
{
    if n > 0 {
        lemma_connection_services_front(kids, whole, (n - 1) as nat);
    }
}

/// Two lists of lines set up the services of the first, then those of the
/// second.
proof fn lemma_connection_services_add(a: Seq<Tree>, b: Seq<Tree>, n: nat)
    requires
        n <= b.len(),
    ensures
        connection_services(a + b, a.len() + n) == connection_services(a, a.len())
            + connection_services(b, n),
    decreases n,
{
    if n == 0 {
        lemma_connection_services_front(a, a + b, a.len());
        assert(connection_services(a, a.len()) + connection_services(b, 0)
            =~= connection_services(a, a.len()));
    } else {
        lemma_connection_services_add(a, b, (n - 1) as nat);
        assert((a + b)[a.len() + n - 1] == b[n - 1]);
        let front = connection_services(a, a.len());
        let before = connection_services(b, (n - 1) as nat);
        match parse_wan_line(b[n - 1].line) {
            Some(vlan) => {
                let service = ServiceView { vlan, upload: None, download: None };
                assert((front + before).push(service) =~= front + before.push(service));
            },
            None => {},
        }
    }
}

/// The service that the extractor gives back for a service of a script:
/// its VLAN and its way of access, where it has one; nothing where it has
/// none, and nothing of the limits of its traffic.
pub open spec fn recovered_services(services: Seq<ServiceView>, n: nat) -> Seq<ServiceView>
    decreases n,
{
    if n == 0 || n > services.len() || n > 255 {
        Seq::empty()
    } else {
        let before = recovered_services(services, (n - 1) as nat);
        match services[n - 1].vlan.service {
            Some(mode) => before.push(
                ServiceView {
                    vlan: VlanView { id: services[n - 1].vlan.id, service: Some(mode) },
                    upload: None,
                    download: None,
                },
            ),
            None => before,
        }
    }
}

/// Every way of access among `services` has single tokens as credentials.
pub open spec fn plain_services(services: Seq<ServiceView>) -> bool {
    forall|i: int|
        0 <= i < services.len() && (#[trigger] services[i]).vlan.service is Some ==> plain_access(
            services[i].vlan.service->0,
        )
}

/// Of the lines by which a script manages one service, the line of its
/// connection alone sets up a service: the one it was written from.
proof fn lemma_service_lines_read_back(service: ServiceView, k: u8)
    requires
        service.vlan.service is Some ==> plain_access(service.vlan.service->0),
    ensures
        connection_services(service_lines(service, k), service_lines(service, k).len()) == (
        match service.vlan.service {
            Some(mode) => seq![
                ServiceView {
                    vlan: VlanView { id: service.vlan.id, service: Some(mode) },
                    upload: None,
                    download: None,
                },
            ],
            None => Seq::<ServiceView>::empty(),
        }),
{
    reveal_strlit("wan-ip ");
    reveal_strlit("wan-ip ipv4 mode ");
    reveal_strlit("service ");
    reveal_strlit("security-mgmt ");
    let first = service_line(k, service.vlan.id);
    assert(first[0] == 's');
    assert(wan_head(first) is None) by {
        if occurs_at(first, 0, "wan-ip "@) {
            assert(first.subrange(0, 7)[0] == 'w');
        }
        if occurs_at(first, 0, "wan-ip ipv4 mode "@) {
            assert(first.subrange(0, 17)[0] == 'w');
        }
    }
    let rule = web_access_line(k);
    assert(rule[0] == 's');
    assert(wan_head(rule) is None) by {
        if occurs_at(rule, 0, "wan-ip "@) {
            assert(rule.subrange(0, 7)[0] == 'w');
        }
        if occurs_at(rule, 0, "wan-ip ipv4 mode "@) {
            assert(rule.subrange(0, 17)[0] == 'w');
        }
    }
    let lines = service_lines(service, k);
    reveal_with_fuel(connection_services, 4);
    match service.vlan.service {
        None => {
            assert(connection_services(lines, 1) =~= Seq::<ServiceView>::empty());
        },
        Some(mode) => {
            lemma_connection_line_read_back(k, service.vlan.id, mode);
            let found = ServiceView {
                vlan: VlanView { id: service.vlan.id, service: Some(mode) },
                upload: None,
                download: None,
            };
            assert(connection_services(lines, 1) =~= Seq::<ServiceView>::empty());
            assert(connection_services(lines, 2) =~= seq![found]);
            assert(connection_services(lines, 3) =~= seq![found]);
        },
    }
}

/// The lines by which a script manages its services set up those services
/// again.
proof fn lemma_management_lines_read_back(services: Seq<ServiceView>, n: nat)
    requires
        plain_services(services),
    ensures
        connection_services(management_lines(services, n), management_lines(services, n).len())
            == recovered_services(services, n),
    decreases n,
{
    if n == 0 || n > services.len() || n > 255 {
    } else {
        lemma_management_lines_read_back(services, (n - 1) as nat);
        lemma_service_lines_read_back(services[n - 1], n as u8);
        let before = management_lines(services, (n - 1) as nat);
        let more = service_lines(services[n - 1], n as u8);
        lemma_connection_services_add(before, more, more.len());
        let found = recovered_services(services, (n - 1) as nat);
        match services[n - 1].vlan.service {
            Some(mode) => {
                let service = ServiceView {
                    vlan: VlanView { id: services[n - 1].vlan.id, service: Some(mode) },
                    upload: None,
                    download: None,
                };
                assert(found + seq![service] =~= found.push(service));
            },
            None => {
                assert(found + Seq::<ServiceView>::empty() =~= found);
            },
        }
    }
}

/// The unit as the extractor gives it back from a script: at the same slot,
/// port and number, at the level of the head end's ports, with the same
/// model and serial number, and with the services that have a way of
/// access.
pub open spec fn recovered_unit(o: OnuView) -> OnuView {
    OnuView {
        interface: InterfaceView { level: LevelView::GponOlt, ..o.interface },
        model: o.model,
        sn: o.sn,
        services: recovered_services(o.services, o.services.len()),
    }
}

/// A unit is recovered from the script that provisions it: the extractor
/// finds in the script just that one unit, with its slot, port, number,
/// model and serial number, and with each service that has a way of
/// access, by its VLAN and that way of access.
pub proof fn lemma_unit_is_recovered_from_script(o: OnuView)
    requires
        unit_address(o.interface),
        !has_char(o.model, '\n'),
        !has_char(o.sn, '\n'),
        !has_char(o.sn, ' '),
        o.services.len() <= 255,
        plain_services(o.services),
    ensures
        extract(provisioning_script(o)) == seq![recovered_unit(o)],
{
    let script = provisioning_script(o);
    let unit = OnuView {
        interface: InterfaceView { level: LevelView::GponOlt, ..o.interface },
        model: o.model,
        sn: o.sn,
        services: Seq::empty(),
    };
    reveal_strlit("if-intf");
    reveal_strlit("xpon");
    assert("if-intf"@.len() != "xpon"@.len());
    reveal_with_fuel(position_from, 3);
    assert(position(script, "xpon"@) == Some(1int));
    let blocks = script[1].1;
    assert(blocks.len() == 3);
    reveal_with_fuel(extract_from, 4);
    assert(extract_from(blocks, 0) =~= Seq::empty());

    lemma_registration_is_read_back(Seq::empty(), o);
    let registered = extract_step(Seq::empty(), olt_block(o));
    assert(registered =~= seq![unit]);

    lemma_onu_line_round_trip(o.interface.slot, o.interface.port, o.interface.id->0);
    reveal_strlit("interface");
    reveal_strlit("pon-onu-mng ");
    let enter = onu_block(o).line;
    assert(enter[0] == 'i');
    assert(!occurs_at(enter, 0, "pon-onu-mng "@)) by {
        if occurs_at(enter, 0, "pon-onu-mng "@) {
            assert(enter.subrange(0, 12)[0] == 'p');
        }
    }
    assert(extract_step(registered, onu_block(o)) == registered);

    let manage = management_block(o);
    assert(manage.line.subrange(0, 12) =~= "pon-onu-mng "@);
    let kids = kids_of(manage);
    lemma_management_lines_read_back(o.services, o.services.len());
    assert(connection_services(kids, kids.len()) == recovered_services(
        o.services,
        o.services.len(),
    ));
    let at = InterfaceView { level: LevelView::GponOnu, ..o.interface };
    reveal_with_fuel(unit_from, 2);
    assert(same_unit(unit.interface, at));
    assert(registered.update(0, recovered_unit(o)) =~= seq![recovered_unit(o)]);
    assert(extract_step(registered, manage) == seq![recovered_unit(o)]);
}

/// A unit with one service, which has a way of access and no limit on its
/// traffic, is recovered from its script as it was, but for the level of
/// its interface.
pub proof fn lemma_unit_with_one_service_is_recovered(o: OnuView)
    requires
        unit_address(o.interface),
        !has_char(o.model, '\n'),
        !has_char(o.sn, '\n'),
        !has_char(o.sn, ' '),
        o.services.len() == 1,
        o.services[0].vlan.service is Some,
        plain_access(o.services[0].vlan.service->0),
        o.services[0].upload is None,
        o.services[0].download is None,
    ensures
        extract(provisioning_script(o)) == seq![
            OnuView { interface: InterfaceView { level: LevelView::GponOlt, ..o.interface }, ..o },
        ],
{
    lemma_unit_is_recovered_from_script(o);
    reveal_with_fuel(recovered_services, 2);
    assert(recovered_services(o.services, 1) =~= o.services);
}

/// A unit is recovered from the text of the script that provisions it,
/// where that text can be read back at all.
pub proof fn lemma_unit_is_recovered_from_text(o: OnuView)
    requires
        unit_address(o.interface),
        !has_char(o.model, '\n'),
        !has_char(o.sn, '\n'),
        !has_char(o.sn, ' '),
        o.services.len() <= 255,
        plain_services(o.services),
        text_config(provisioning_script(o)),
    ensures
        extract(parse_dump(lines_of(sections_text(provisioning_script(o), 3)))) == seq![
            recovered_unit(o),
        ],
{
    lemma_text_round_trip(provisioning_script(o));
    lemma_unit_is_recovered_from_script(o);
}

} // verus!
