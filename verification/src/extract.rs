use crate::configuration::{
    forest, lemma_view_kids, position, Config, ConfigField, NestedCommand, Tree,
};
use crate::legacy::{parse_onu_line, parse_wan_line, read_onu_line};
use crate::olt::{parse_interface, Interface, InterfaceLevel, InterfaceView, LevelView};
use crate::onu::{service_views, Onu, OnuService, OnuView, ServiceView, Vlan};
use crate::text::{chars_of, occurs_at, stands_at};
use vstd::prelude::*;

verus! {

/// The units that a list of units stands for.
pub open spec fn onu_views(v: Seq<Onu>) -> Seq<OnuView> {
    Seq::new(v.len(), |i: int| v[i]@)
}

/// The list below a tree; empty where it has none.
pub open spec fn kids_of(t: Tree) -> Seq<Tree> {
    match t.kids {
        Some(kids) => kids,
        None => Seq::empty(),
    }
}

/// The units that the first `n` lines of `kids` register at the port `port`:
/// one for each line that registers a unit, in the order of the lines, with
/// the port's address, the line's number, model and serial number, and no
/// service.
pub open spec fn registered_units(port: InterfaceView, kids: Seq<Tree>, n: nat) -> Seq<OnuView>
    decreases n,
{
    if n == 0 || n > kids.len() {
        Seq::empty()
    } else {
        let before = registered_units(port, kids, (n - 1) as nat);
        match parse_onu_line(kids[n - 1].line) {
            Some(record) => before.push(
                OnuView {
                    interface: InterfaceView { id: Some(record.id), ..port },
                    model: record.model,
                    sn: record.sn,
                    services: Seq::empty(),
                },
            ),
            None => before,
        }
    }
}

/// The services that the first `n` lines of `kids` set up: one for each line
/// that sets up a connection, in the order of the lines.
pub open spec fn connection_services(kids: Seq<Tree>, n: nat) -> Seq<ServiceView>
    decreases n,
{
    if n == 0 || n > kids.len() {
        Seq::empty()
    } else {
        let before = connection_services(kids, (n - 1) as nat);
        match parse_wan_line(kids[n - 1].line) {
            Some(vlan) => before.push(ServiceView { vlan, upload: None, download: None }),
            None => before,
        }
    }
}

/// Two interfaces address the same unit: slot, port and number are equal.
pub open spec fn same_unit(a: InterfaceView, b: InterfaceView) -> bool {
    a.slot == b.slot && a.port == b.port && a.id == b.id
}

/// The index of the first unit from `from` on that `at` addresses.
pub open spec fn unit_from(units: Seq<OnuView>, at: InterfaceView, from: int) -> Option<int>
    decreases units.len() - from,
{
    if from < 0 || from >= units.len() {
        None
    } else if same_unit(units[from].interface, at) {
        Some(from)
    } else {
        unit_from(units, at, from + 1)
    }
}

/// Whether the line `line`, which names the interface `at`, enters the
/// management of a unit: the kind of the interface is `pon-onu-mng`, or
/// `pon-onu-mng` is the first word of the line, as in
/// `pon-onu-mng gpon-onu_1/1/3:5`.
pub open spec fn enters_management(line: Seq<char>, at: InterfaceView) -> bool {
    at.level == LevelView::PonOnuMng || occurs_at(line, 0, "pon-onu-mng "@)
}

/// `units` with the services that `kids` set up given to the first unit
/// that `at` addresses, in place of those it had; `units` where it
/// addresses none.
pub open spec fn with_services(units: Seq<OnuView>, at: InterfaceView, kids: Seq<Tree>) -> Seq<
    OnuView,
> {
    match unit_from(units, at, 0) {
        Some(k) => units.update(
            k,
            OnuView { services: connection_services(kids, kids.len()), ..units[k] },
        ),
        None => units,
    }
}

/// The units after one more block. A block whose line names a port of the
/// head end adds the units that its lines register. A block whose line
/// enters the management of a unit gives the first unit found so far that
/// it addresses the services that its lines set up, in place of those it
/// had. Any other block changes nothing.
pub open spec fn extract_step(units: Seq<OnuView>, block: Tree) -> Seq<OnuView> {
    let kids = kids_of(block);
    match parse_interface(block.line) {
        Some(at) => if at.level == LevelView::GponOlt {
            units + registered_units(at, kids, kids.len())
        } else if enters_management(block.line, at) {
            with_services(units, at, kids)
        } else {
            units
        },
        None => units,
    }
}

/// The units that the first `n` blocks of `blocks` describe.
pub open spec fn extract_from(blocks: Seq<Tree>, n: nat) -> Seq<OnuView>
    decreases n,
{
    if n == 0 || n > blocks.len() {
        Seq::empty()
    } else {
        extract_step(extract_from(blocks, (n - 1) as nat), blocks[n - 1])
    }
}

/// The units that the section `xpon` of a configuration describes; none
/// where it has no such section.
pub open spec fn extract(config: Seq<(Seq<char>, Seq<Tree>)>) -> Seq<OnuView> {
    match position(config, "xpon"@) {
        Some(p) => extract_from(config[p].1, config[p].1.len()),
        None => Seq::empty(),
    }
}

/// Puts `unit` at the end of `units`.
fn push_unit(units: &mut Vec<Onu>, unit: Onu)
    ensures
        onu_views(final(units)@) == onu_views(old(units)@).push(unit@),
{
    let ghost before = onu_views(units@);
    units.push(unit);
    assert(onu_views(units@) =~= before.push(unit@));
}

/// Adds the units that `lines` register at `port`.
fn register_units(units: &mut Vec<Onu>, port: &Interface, lines: &Vec<NestedCommand>)
    ensures
        onu_views(final(units)@) == onu_views(old(units)@) + registered_units(
            port@,
            forest(lines@),
            lines@.len(),
        ),
{
    let ghost start = onu_views(units@);
    let ghost kids = forest(lines@);
    let mut n: usize = 0;
    assert(start =~= start + registered_units(port@, kids, 0));
    while n < lines.len()
        invariant
            n <= lines.len(),
            kids == forest(lines@),
            onu_views(units@) == start + registered_units(port@, kids, n as nat),
        decreases lines.len() - n,
    {
        assert(kids[n as int] == lines@[n as int]@);
        match read_onu_line(lines[n].as_str()) {
            Some(record) => {
                let unit = Onu::new(
                    port.with_id(record.id),
                    record.model.as_str(),
                    record.sn.as_str(),
                    Vec::new(),
                );
                assert(service_views(Seq::<OnuService>::empty()) =~= Seq::empty());
                push_unit(units, unit);
            },
            None => {},
        }
        n = n + 1;
        assert(onu_views(units@) =~= start + registered_units(port@, kids, n as nat));
    }
}

/// The services that `lines` set up.
fn read_services(lines: &Vec<NestedCommand>) -> (out: Vec<OnuService>)
    ensures
        service_views(out@) == connection_services(forest(lines@), lines@.len()),
{
    let ghost kids = forest(lines@);
    let mut out: Vec<OnuService> = Vec::new();
    let mut n: usize = 0;
    assert(service_views(out@) =~= connection_services(kids, 0));
    while n < lines.len()
        invariant
            n <= lines.len(),
            kids == forest(lines@),
            service_views(out@) == connection_services(kids, n as nat),
        decreases lines.len() - n,
    {
        assert(kids[n as int] == lines@[n as int]@);
        let ghost before = service_views(out@);
        match Vlan::parse(lines[n].as_str()) {
            Ok(vlan) => {
                let service = OnuService::new(vlan);
                out.push(service);
                assert(service_views(out@) =~= before.push(service@));
            },
            Err(_) => {},
        }
        n = n + 1;
    }
    out
}

/// The index of the first unit that `at` addresses.
fn find_unit(units: &Vec<Onu>, at: &Interface) -> (out: Option<usize>)
    ensures
        match out {
            Some(k) => unit_from(onu_views(units@), at@, 0) == Some(k as int) && k < units.len(),
            None => unit_from(onu_views(units@), at@, 0) is None,
        },
{
    let ghost views = onu_views(units@);
    let mut k: usize = 0;
    while k < units.len()
        invariant
            k <= units.len(),
            views == onu_views(units@),
            unit_from(views, at@, 0) == unit_from(views, at@, k as int),
        decreases units.len() - k,
    {
        assert(views[k as int] == units@[k as int]@);
        let own = units[k].interface();
        let same_id = match (own.id, at.id) {
            (Some(a), Some(b)) => a == b,
            (None, None) => true,
            _ => false,
        };
        if own.slot == at.slot && own.port == at.port && same_id {
            return Some(k);
        }
        k = k + 1;
    }
    None
}

/// Gives the first unit that `at` addresses the services that `lines` set up.
fn set_services(units: &mut Vec<Onu>, at: &Interface, lines: &Vec<NestedCommand>)
    ensures
        onu_views(final(units)@) == with_services(onu_views(old(units)@), at@, forest(lines@)),
{
    let ghost before = onu_views(units@);
    match find_unit(units, at) {
        Some(k) => {
            let mut unit = units.remove(k);
            unit.set_service(read_services(lines));
            units.insert(k, unit);
            assert(onu_views(units@) =~= before.update(k as int, unit@));
        },
        None => {},
    }
}

/// Whether `pon-onu-mng` is the first word of `line`.
fn starts_management(line: &str) -> (out: bool)
    ensures
        out == occurs_at(line@, 0, "pon-onu-mng "@),
{
    let t = chars_of(line);
    let word = chars_of("pon-onu-mng ");
    stands_at(&t, 0, &word)
}

/// Takes one more block into account.
fn take_block(units: &mut Vec<Onu>, block: &NestedCommand)
    ensures
        onu_views(final(units)@) == extract_step(onu_views(old(units)@), block@),
{
    proof {
        lemma_view_kids(*block);
    }
    let ghost before = onu_views(units@);
    let none: Vec<NestedCommand> = Vec::new();
    let lines = match &block.nested {
        Some(lines) => lines,
        None => &none,
    };
    assert(forest(lines@) =~= kids_of(block@));
    match Interface::parse(block.command.as_str()) {
        Ok(at) => {
            match at.level {
                InterfaceLevel::GponOlt => {
                    register_units(units, &at, lines);
                },
                InterfaceLevel::PonOnuMng => {
                    set_services(units, &at, lines);
                },
                _ => {
                    if starts_management(block.command.as_str()) {
                        set_services(units, &at, lines);
                    }
                },
            }
        },
        Err(_) => {},
    }
}

impl Config {
    /// The units that the section `xpon` describes, in the order in which
    /// its blocks register them, each with the services that a later block
    /// of management sets up for it. A block is one of management where its
    /// line names a unit and either has the kind `pon-onu-mng` or starts
    /// with the word `pon-onu-mng`; its unit is the one at the same slot,
    /// port and number.
    pub fn extract_onu(&self) -> (out: Vec<Onu>)
        ensures
            onu_views(out@) == extract(self@),
    {
        let mut out: Vec<Onu> = Vec::new();
        assert(onu_views(out@) =~= Seq::empty());
        let blocks = match self.get(&ConfigField::from("xpon")) {
            Some(blocks) => blocks,
            None => {
                return out;
            },
        };
        let ghost trees = forest(blocks@);
        let mut n: usize = 0;
        while n < blocks.len()
            invariant
                n <= blocks.len(),
                trees == forest(blocks@),
                onu_views(out@) == extract_from(trees, n as nat),
            decreases blocks.len() - n,
        {
            assert(trees[n as int] == blocks@[n as int]@);
            take_block(&mut out, &blocks[n]);
            n = n + 1;
        }
        out
    }
}

} // verus!
