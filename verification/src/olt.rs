use crate::error::Error;
use crate::command::{olt_address, onu_address};
use crate::text::{
    chars_of, count_trailing_digits, decimal, ends_word, find_word_start, is_digit, last_word,
    lemma_decimal_digits_value, lemma_last_word, lemma_numeral_of_decimal, lemma_split_number,
    numeral_value, one_word, read_numeral, split_number, text_of,
};
use vstd::prelude::*;
use vstd::std_specs::cmp::PartialEqSpecImpl;

verus! {

/// The level of the equipment's hierarchy at which an interface stands.
#[derive(Debug, Hash)]
pub enum InterfaceLevel {
    GponOlt,
    GponOnu,
    PonOnuMng,
    Other(String),
}

/// An interface level as a mathematical value.
pub enum LevelView {
    GponOlt,
    GponOnu,
    PonOnuMng,
    Other(Seq<char>),
}

impl View for InterfaceLevel {
    type V = LevelView;

    open spec fn view(&self) -> LevelView {
        match self {
            InterfaceLevel::GponOlt => LevelView::GponOlt,
            InterfaceLevel::GponOnu => LevelView::GponOnu,
            InterfaceLevel::PonOnuMng => LevelView::PonOnuMng,
            InterfaceLevel::Other(name) => LevelView::Other(name@),
        }
    }
}

/// The address of a port of the equipment, or of a unit behind one.
#[derive(Debug, Hash)]
pub struct Interface {
    pub level: InterfaceLevel,
    pub slot: u8,
    pub port: u8,
    pub id: Option<u8>,
}

/// An interface as a mathematical value.
pub struct InterfaceView {
    pub level: LevelView,
    pub slot: u8,
    pub port: u8,
    pub id: Option<u8>,
}

impl View for Interface {
    type V = InterfaceView;

    open spec fn view(&self) -> InterfaceView {
        InterfaceView { level: self.level@, slot: self.slot, port: self.port, id: self.id }
    }
}

impl PartialEq for InterfaceLevel {
    fn eq(&self, other: &InterfaceLevel) -> (out: bool) {
        match (self, other) {
            (InterfaceLevel::GponOlt, InterfaceLevel::GponOlt) => true,
            (InterfaceLevel::GponOnu, InterfaceLevel::GponOnu) => true,
            (InterfaceLevel::PonOnuMng, InterfaceLevel::PonOnuMng) => true,
            (InterfaceLevel::Other(a), InterfaceLevel::Other(b)) => *a == *b,
            _ => false,
        }
    }
}

impl PartialEqSpecImpl for InterfaceLevel {
    open spec fn obeys_eq_spec() -> bool {
        true
    }

    /// Two levels are equal where they are the same known level, or two
    /// other levels of the same name.
    open spec fn eq_spec(&self, other: &InterfaceLevel) -> bool {
        self@ == other@
    }
}

impl Eq for InterfaceLevel {

}

impl PartialEq for Interface {
    fn eq(&self, other: &Interface) -> (out: bool) {
        let same_id = match (self.id, other.id) {
            (Some(a), Some(b)) => a == b,
            (None, None) => true,
            _ => false,
        };
        self.level == other.level && self.slot == other.slot && self.port == other.port && same_id
    }
}

impl PartialEqSpecImpl for Interface {
    open spec fn obeys_eq_spec() -> bool {
        true
    }

    /// Two interfaces are equal where level, slot, port and unit are.
    open spec fn eq_spec(&self, other: &Interface) -> bool {
        self@ == other@
    }
}

impl Eq for Interface {

}

impl Clone for InterfaceLevel {
    fn clone(&self) -> (out: Self)
        ensures
            out@ == self@,
    {
        match self {
            InterfaceLevel::GponOlt => InterfaceLevel::GponOlt,
            InterfaceLevel::GponOnu => InterfaceLevel::GponOnu,
            InterfaceLevel::PonOnuMng => InterfaceLevel::PonOnuMng,
            InterfaceLevel::Other(name) => InterfaceLevel::Other(name.clone()),
        }
    }
}

impl Clone for Interface {
    fn clone(&self) -> (out: Self)
        ensures
            out@ == self@,
    {
        Interface { level: self.level.clone(), slot: self.slot, port: self.port, id: self.id }
    }
}

impl Default for InterfaceLevel {
    fn default() -> (out: Self)
        ensures
            out@ == LevelView::Other("generic"@),
    {
        InterfaceLevel::Other(String::from_str("generic"))
    }
}

impl Default for Interface {
    fn default() -> (out: Self)
        ensures
            out@ == (InterfaceView {
                level: LevelView::Other("generic"@),
                slot: 0,
                port: 0,
                id: None,
            }),
    {
        Interface { level: InterfaceLevel::default(), slot: 0, port: 0, id: None }
    }
}

impl Interface {
    /// The same interface, addressing unit `id`.
    pub fn with_id(&self, id: u8) -> (out: Interface)
        ensures
            out@ == (InterfaceView { id: Some(id), ..self@ }),
    {
        Interface { level: self.level.clone(), slot: self.slot, port: self.port, id: Some(id) }
    }
}

/// The level that the kind `kind` of an interface stands for.
pub open spec fn level_of(kind: Seq<char>) -> LevelView {
    if kind == "gpon-olt"@ || kind == "gpon_olt"@ {
        LevelView::GponOlt
    } else if kind == "gpon-onu"@ || kind == "gpon_onu"@ {
        LevelView::GponOnu
    } else if kind == "pon-onu-mng"@ {
        LevelView::PonOnuMng
    } else {
        LevelView::Other(kind)
    }
}

/// The number that the numeral `s` writes, where it lies from `lo` to `hi`.
pub open spec fn number_within(s: Seq<char>, lo: nat, hi: nat) -> Option<nat> {
    match numeral_value(s) {
        Some(v) => if lo <= v <= hi {
            Some(v)
        } else {
            None
        },
        None => None,
    }
}

/// Reads an interface whose port is written by `port` and whose unit, if
/// any, by `id`, from `front`, the text before the port: it ends in a
/// separator (`_` or `-`), `1/`, the slot and `/`, and the word before the
/// separator is the kind. The slot lies from 0 to 19, the port from 1 to 16,
/// the unit from 1 to 129.
pub open spec fn read_address(front: Seq<char>, port: Seq<char>, id: Option<Seq<char>>) -> Option<
    InterfaceView,
> {
    if front.len() > 0 && front.last() == '/' {
        let (head, slot) = split_number(front.drop_last());
        let n = head.len() as int;
        if n >= 3 && head[n - 1] == '/' && head[n - 2] == '1' && (head[n - 3] == '_' || head[n
            - 3] == '-') {
            let kind = last_word(head.subrange(0, n - 3));
            match (number_within(slot, 0, 19), number_within(port, 1, 16)) {
                (Some(s), Some(p)) => match id {
                    None => Some(
                        InterfaceView { level: level_of(kind), slot: s as u8, port: p as u8, id: None },
                    ),
                    Some(digits) => match number_within(digits, 1, 129) {
                        Some(i) => Some(
                            InterfaceView {
                                level: level_of(kind),
                                slot: s as u8,
                                port: p as u8,
                                id: Some(i as u8),
                            },
                        ),
                        None => None,
                    },
                },
                _ => None,
            }
        } else {
            None
        }
    } else {
        None
    }
}

/// The interface that a text names at its end, if it names one:
/// `<kind>_1/<slot>/<port>` or `<kind>-1/<slot>/<port>`, then `:<id>` or
/// nothing. Whatever stands before the kind, up to a space, is passed over.
pub open spec fn parse_interface(t: Seq<char>) -> Option<InterfaceView> {
    let (rest, last) = split_number(t);
    if rest.len() > 0 && rest.last() == ':' {
        let (front, port) = split_number(rest.drop_last());
        read_address(front, port, Some(last))
    } else {
        read_address(rest, last, None)
    }
}

impl InterfaceLevel {
    /// The level that the kind `kind` stands for.
    pub fn from_kind(kind: &str) -> (out: InterfaceLevel)
        ensures
            out@ == level_of(kind@),
    {
        let name = String::from_str(kind);
        if name == String::from_str("gpon-olt") || name == String::from_str("gpon_olt") {
            InterfaceLevel::GponOlt
        } else if name == String::from_str("gpon-onu") || name == String::from_str("gpon_onu") {
            InterfaceLevel::GponOnu
        } else if name == String::from_str("pon-onu-mng") {
            InterfaceLevel::PonOnuMng
        } else {
            InterfaceLevel::Other(name)
        }
    }
}

/// Reads the numeral that `t` holds from `from` up to `to`, where the number
/// lies from `lo` to `hi`.
fn read_within(t: &Vec<char>, from: usize, to: usize, lo: u8, hi: u8) -> (out: Option<u8>)
    requires
        from <= to <= t.len(),
    ensures
        match out {
            Some(v) => number_within(t@.subrange(from as int, to as int), lo as nat, hi as nat)
                == Some(v as nat),
            None => number_within(t@.subrange(from as int, to as int), lo as nat, hi as nat)
                is None,
        },
{
    match read_numeral(t, from, to) {
        Some(v) => if lo as u32 <= v && v <= hi as u32 {
            Some(v as u8)
        } else {
            None
        },
        None => None,
    }
}

/// The failure of reading an interface.
fn parse_failure() -> (out: Error)
    ensures
        out == Error::Generic(out->Generic_0),
        out->Generic_0@ == "Parse interface"@,
{
    Error::Generic(String::from_str("Parse interface"))
}

impl Interface {
    /// Reads the interface that `value` names at its end. Fails where
    /// `value` names none.
    pub fn parse(value: &str) -> (out: Result<Interface, Error>)
        ensures
            match out {
                Ok(interface) => parse_interface(value@) == Some(interface@),
                Err(e) => parse_interface(value@) is None && e->Generic_0@
                    == "Parse interface"@,
            },
    {
        let t = chars_of(value);
        let n = t.len();
        let d1 = count_trailing_digits(&t, n);
        let r1 = n - d1;
        assert(t@.subrange(0, n as int) =~= t@);
        let ghost rest = t@.subrange(0, r1 as int);
        let ghost last = t@.subrange(r1 as int, n as int);
        assert(split_number(t@) == (rest, last));
        if r1 > 0 && t[r1 - 1] == ':' {
            assert(rest.last() == ':');
            assert(rest.drop_last() =~= t@.subrange(0, r1 - 1));
            let d2 = count_trailing_digits(&t, r1 - 1);
            let start = r1 - 1 - d2;
            assert(t@.subrange(0, r1 - 1).subrange(0, start as int) =~= t@.subrange(0, start as int));
            assert(t@.subrange(0, r1 - 1).subrange(start as int, r1 - 1) =~= t@.subrange(
                start as int,
                r1 - 1,
            ));
            Interface::read(value, &t, start, r1 - 1, Some((r1, n)))
        } else {
            assert(rest.len() > 0 ==> rest.last() == t@[r1 - 1]);
            Interface::read(value, &t, r1, n, None)
        }
    }

    fn read(
        value: &str,
        t: &Vec<char>,
        port_from: usize,
        port_to: usize,
        id: Option<(usize, usize)>,
    ) -> (out: Result<Interface, Error>)
        requires
            t@ == value@,
            port_from <= port_to <= t.len(),
            match id {
                Some((a, b)) => a <= b <= t.len(),
                None => true,
            },
        ensures
            ({
                let expected = read_address(
                    t@.subrange(0, port_from as int),
                    t@.subrange(port_from as int, port_to as int),
                    match id {
                        Some((a, b)) => Some(t@.subrange(a as int, b as int)),
                        None => None,
                    },
                );
                match out {
                    Ok(interface) => expected == Some(interface@),
                    Err(e) => expected is None && e->Generic_0@ == "Parse interface"@,
                }
            }),
    {
        let ghost front = t@.subrange(0, port_from as int);
        if port_from == 0 || t[port_from - 1] != '/' {
            assert(front.len() > 0 ==> front.last() == t@[port_from - 1]);
            return Err(parse_failure());
        }
        assert(front.last() == '/');
        let slot_to = port_from - 1;
        assert(front.drop_last() =~= t@.subrange(0, slot_to as int));
        let d = count_trailing_digits(t, slot_to);
        let slot_from = slot_to - d;
        let ghost head = t@.subrange(0, slot_from as int);
        assert(t@.subrange(0, slot_to as int).subrange(0, slot_from as int) =~= head);
        assert(t@.subrange(0, slot_to as int).subrange(slot_from as int, slot_to as int)
            =~= t@.subrange(slot_from as int, slot_to as int));
        assert(split_number(front.drop_last()) == (
            head,
            t@.subrange(slot_from as int, slot_to as int),
        ));
        if slot_from < 3 {
            return Err(parse_failure());
        }
        assert(head[slot_from - 1] == t@[slot_from - 1]);
        assert(head[slot_from - 2] == t@[slot_from - 2]);
        assert(head[slot_from - 3] == t@[slot_from - 3]);
        if t[slot_from - 1] != '/' || t[slot_from - 2] != '1' || (t[slot_from - 3] != '_'
            && t[slot_from - 3] != '-') {
            return Err(parse_failure());
        }
        let kind_to = slot_from - 3;
        assert(head.subrange(0, kind_to as int) =~= t@.subrange(0, kind_to as int));
        let kind_from = find_word_start(t, kind_to);
        assert(t@.subrange(0, kind_to as int).subrange(kind_from as int, kind_to as int)
            =~= t@.subrange(kind_from as int, kind_to as int));
        let slot = match read_within(t, slot_from, slot_to, 0, 19) {
            Some(v) => v,
            None => {
                return Err(parse_failure());
            },
        };
        let port = match read_within(t, port_from, port_to, 1, 16) {
            Some(v) => v,
            None => {
                return Err(parse_failure());
            },
        };
        let unit = match id {
            None => None,
            Some((a, b)) => match read_within(t, a, b, 1, 129) {
                Some(v) => Some(v),
                None => {
                    return Err(parse_failure());
                },
            },
        };
        let kind = text_of(t, kind_from, kind_to, value);
        Ok(Interface { level: InterfaceLevel::from_kind(kind.as_str()), slot, port, id: unit })
    }
}

/// The kind by which a level is written.
pub open spec fn kind_of(level: LevelView) -> Seq<char> {
    match level {
        LevelView::GponOlt => "gpon_olt"@,
        LevelView::GponOnu => "gpon_onu"@,
        LevelView::PonOnuMng => "pon-onu-mng"@,
        LevelView::Other(name) => name,
    }
}

/// `1/<slot>/<port>`, then `:<id>` where there is one.
pub open spec fn address_text(slot: u8, port: u8, id: Option<u8>) -> Seq<char> {
    "1/"@ + decimal(slot as nat) + "/"@ + decimal(port as nat) + match id {
        Some(i) => ":"@ + decimal(i as nat),
        None => Seq::empty(),
    }
}

/// An interface written after `prefix`, with `sep` between kind and address.
pub open spec fn interface_text(prefix: Seq<char>, sep: char, i: InterfaceView) -> Seq<char> {
    prefix + kind_of(i.level) + seq![sep] + address_text(i.slot, i.port, i.id)
}

/// The slot lies from 0 to 19, the port from 1 to 16, the unit, if there is
/// one, from 1 to 129; the name of a level that is none of the three known
/// ones is one word and not the kind of a known level.
pub open spec fn valid_interface(i: InterfaceView) -> bool {
    &&& i.slot <= 19
    &&& 1 <= i.port <= 16
    &&& i.id is Some ==> 1 <= i.id->0 <= 129
    &&& i.level is Other ==> one_word(i.level->Other_0) && level_of(i.level->Other_0) == i.level
}

/// The kinds of the three known levels are single words, each read as its level.
proof fn lemma_known_kinds()
    ensures
        one_word("gpon_olt"@),
        one_word("gpon_onu"@),
        one_word("pon-onu-mng"@),
        level_of("gpon_olt"@) == LevelView::GponOlt,
        level_of("gpon_onu"@) == LevelView::GponOnu,
        level_of("pon-onu-mng"@) == LevelView::PonOnuMng,
{
    reveal_strlit("gpon_olt");
    reveal_strlit("gpon_onu");
    reveal_strlit("gpon-olt");
    reveal_strlit("gpon-onu");
    reveal_strlit("pon-onu-mng");
    assert("gpon_onu"@[7] == 'u');
    assert("gpon_olt"@[7] == 't');
    assert("gpon-olt"@[4] == '-');
    assert("gpon-onu"@[4] == '-');
    assert("gpon_onu"@[4] == '_');
    assert("gpon_olt"@[4] == '_');
    assert("pon-onu-mng"@.len() == 11);
    assert("gpon_onu"@.len() == 8);
    assert("gpon_olt"@.len() == 8);
}

/// An interface that was written is read back as it was: for every valid
/// interface, whatever stands before its kind up to a space, and with either
/// separator.
pub proof fn lemma_interface_round_trip(prefix: Seq<char>, sep: char, i: InterfaceView)
    requires
        valid_interface(i),
        prefix.len() == 0 || ends_word(prefix.last()),
        sep == '_' || sep == '-',
    ensures
        parse_interface(interface_text(prefix, sep, i)) == Some(i),
{
    lemma_known_kinds();
    reveal_strlit("1/");
    reveal_strlit("/");
    reveal_strlit(":");
    let kind = kind_of(i.level);
    assert(one_word(kind));
    assert(level_of(kind) == i.level);
    let slot = decimal(i.slot as nat);
    let port = decimal(i.port as nat);
    lemma_decimal_digits_value(i.slot as nat);
    lemma_decimal_digits_value(i.port as nat);
    lemma_numeral_of_decimal(i.slot as nat);
    lemma_numeral_of_decimal(i.port as nat);
    let word = prefix + kind;
    let head = word + seq![sep] + "1/"@;
    let front = head + slot + "/"@;
    let t = interface_text(prefix, sep, i);
    let n = head.len() as int;
    assert(head[n - 1] == '/');
    assert(head[n - 2] == '1');
    assert(head[n - 3] == sep);
    assert(head.subrange(0, n - 3) =~= word);
    lemma_last_word(prefix, kind);
    assert(!is_digit('/'));
    assert(!is_digit(':'));
    lemma_split_number(head, slot);
    assert(front.last() == '/');
    assert(front.drop_last() =~= head + slot);
    lemma_split_number(front, port);
    assert(read_address(front, port, None) == Some(InterfaceView { id: None, ..i }));
    match i.id {
        None => {
            assert(t =~= front + port);
        },
        Some(unit) => {
            let id = decimal(unit as nat);
            lemma_decimal_digits_value(unit as nat);
            lemma_numeral_of_decimal(unit as nat);
            let rest = front + port + ":"@;
            assert(t =~= rest + id);
            assert(rest.last() == ':');
            lemma_split_number(rest, id);
            assert(rest.drop_last() =~= front + port);
        },
    }
}

/// The line by which the builder enters a port of the head end is read back
/// as that port.
pub proof fn lemma_olt_line_round_trip(slot: u8, port: u8)
    requires
        slot <= 19,
        1 <= port <= 16,
    ensures
        parse_interface("interface"@ + " "@ + olt_address(slot, port)) == Some(
            InterfaceView { level: LevelView::GponOlt, slot, port, id: None },
        ),
{
    let i = InterfaceView { level: LevelView::GponOlt, slot, port, id: None };
    reveal_strlit("interface");
    reveal_strlit(" ");
    reveal_strlit("gpon_olt-1/");
    reveal_strlit("gpon_olt");
    reveal_strlit("1/");
    let prefix = "interface"@ + " "@;
    assert(prefix.last() == ' ');
    lemma_interface_round_trip(prefix, '-', i);
    assert("gpon_olt-1/"@ =~= "gpon_olt"@ + seq!['-'] + "1/"@);
    assert("interface"@ + " "@ + olt_address(slot, port) =~= interface_text(prefix, '-', i));
}

/// The lines by which the builder enters a unit's interface, and the
/// management of a unit, are read back as that unit, at the level of units.
pub proof fn lemma_onu_line_round_trip(slot: u8, port: u8, id: u8)
    requires
        slot <= 19,
        1 <= port <= 16,
        1 <= id <= 129,
    ensures
        parse_interface("interface"@ + " "@ + onu_address(slot, port, id)) == Some(
            InterfaceView { level: LevelView::GponOnu, slot, port, id: Some(id) },
        ),
        parse_interface("pon-onu-mng "@ + onu_address(slot, port, id)) == Some(
            InterfaceView { level: LevelView::GponOnu, slot, port, id: Some(id) },
        ),
{
    let i = InterfaceView { level: LevelView::GponOnu, slot, port, id: Some(id) };
    reveal_strlit("interface");
    reveal_strlit(" ");
    reveal_strlit("pon-onu-mng ");
    reveal_strlit("gpon_onu-1/");
    reveal_strlit("gpon_onu");
    reveal_strlit("1/");
    let prefix = "interface"@ + " "@;
    assert(prefix.last() == ' ');
    assert("pon-onu-mng "@.last() == ' ');
    lemma_interface_round_trip(prefix, '-', i);
    lemma_interface_round_trip("pon-onu-mng "@, '-', i);
    assert("gpon_onu-1/"@ =~= "gpon_onu"@ + seq!['-'] + "1/"@);
    assert("interface"@ + " "@ + onu_address(slot, port, id) =~= interface_text(prefix, '-', i));
    assert("pon-onu-mng "@ + onu_address(slot, port, id) =~= interface_text(
        "pon-onu-mng "@,
        '-',
        i,
    ));
}

impl From<&str> for InterfaceLevel {
    fn from(value: &str) -> (out: InterfaceLevel)
        ensures
            out@ == level_of(value@),
    {
        InterfaceLevel::from_kind(value)
    }
}

impl vstd::std_specs::convert::FromSpecImpl<&str> for InterfaceLevel {
    open spec fn obeys_from_spec() -> bool {
        false
    }

    open spec fn from_spec(v: &str) -> InterfaceLevel {
        arbitrary()
    }
}

/// The models of the newer line of head ends.
#[derive(Debug, Clone, Copy, PartialEq, Eq)]
pub enum Titan {
    C610,
    C620,
    C650,
    C600,
}

/// The models of the older line of head ends.
#[derive(Debug, Clone, Copy, PartialEq, Eq)]
pub enum C3xx {
    C320,
    C350,
    C300,
}

/// The model of a head end.
#[derive(Debug, Clone, Copy, PartialEq, Eq)]
pub enum OltModel {
    Titan(Titan),
    C3xx(C3xx),
}

/// A head end: its model, its interfaces, the units behind it and its
/// configuration.
pub struct Olt {
    pub model: OltModel,
    pub interfaces: Vec<Interface>,
    pub onu: Vec<crate::onu::Onu>,
    pub configuration: crate::configuration::Config,
}

impl From<OltModel> for Olt {
    /// A head end of the given model, with one generic interface, no unit
    /// and an empty configuration.
    fn from(value: OltModel) -> (out: Olt)
        ensures
            out.model == value,
            out.interfaces@.len() == 1,
            out.interfaces@[0]@ == (InterfaceView {
                level: LevelView::Other("generic"@),
                slot: 0,
                port: 0,
                id: None,
            }),
            out.onu@.len() == 0,
            out.configuration@.len() == 0,
    {
        let mut interfaces: Vec<Interface> = Vec::new();
        interfaces.push(Interface::default());
        Olt {
            model: value,
            interfaces,
            onu: Vec::new(),
            configuration: crate::configuration::Config::default(),
        }
    }
}

impl vstd::std_specs::convert::FromSpecImpl<OltModel> for Olt {
    open spec fn obeys_from_spec() -> bool {
        false
    }

    open spec fn from_spec(v: OltModel) -> Olt {
        arbitrary()
    }
}

/// Whatever is read as an interface lies in the equipment's ranges: the
/// slot up to 19, the port from 1 to 16, the unit, if there is one, from 1
/// to 129. A text that names a slot, a port or a unit outside them is
/// rejected.
pub proof fn lemma_parsed_interface_in_range(t: Seq<char>)
    ensures
        match parse_interface(t) {
            Some(i) => i.slot <= 19 && 1 <= i.port <= 16 && (i.id is Some ==> 1 <= i.id->0
                <= 129),
            None => true,
        },
{
}

impl core::str::FromStr for Interface {
    type Err = Error;

    fn from_str(s: &str) -> (out: Result<Interface, Error>)
        ensures
            match out {
                Ok(interface) => parse_interface(s@) == Some(interface@),
                Err(e) => parse_interface(s@) is None && e->Generic_0@ == "Parse interface"@,
            },
    {
        Interface::parse(s)
    }
}

impl core::str::FromStr for InterfaceLevel {
    type Err = Error;

    fn from_str(s: &str) -> (out: Result<InterfaceLevel, Error>)
        ensures
            out is Ok,
            out->Ok_0@ == level_of(s@),
    {
        Ok(InterfaceLevel::from_kind(s))
    }
}

impl TryFrom<crate::command::Command> for Interface {
    type Error = Error;

    fn try_from(value: crate::command::Command) -> (out: Result<Interface, Error>)
        ensures
            match out {
                Ok(interface) => parse_interface(value@) == Some(interface@),
                Err(e) => parse_interface(value@) is None && e->Generic_0@
                    == "Parse interface"@,
            },
    {
        Interface::parse(value.as_str())
    }
}

impl vstd::std_specs::convert::TryFromSpecImpl<crate::command::Command> for Interface {
    open spec fn obeys_try_from_spec() -> bool {
        false
    }

    open spec fn try_from_spec(v: crate::command::Command) -> Result<Interface, Error> {
        arbitrary()
    }
}

} // verus!
