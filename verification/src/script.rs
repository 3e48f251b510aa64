use crate::command::omci::{wan_mode_text, IngressType, Protocol, WanModeView};
use crate::command::{olt_address, onu_address, vport_address, Command};
use crate::configuration::{
    distinct_names, forest, leaf, merged, push_tree, sections_text, Config, ConfigField,
    ConfigInfo, NestedCommand, Tree,
};
use crate::olt::{Interface, InterfaceView};
use crate::onu::{service_views, Onu, OnuService, OnuView, ServiceView, Vlan, VlanView};
use crate::text::{decimal, push_decimal};
use vstd::prelude::*;

verus! {

/// `onu <id> type <model> sn <serial>`
pub open spec fn onu_line(id: u8, model: Seq<char>, sn: Seq<char>) -> Seq<char> {
    "onu "@ + decimal(id as nat) + " type "@ + model + " sn "@ + sn
}

/// `vport-map 1 <index> vlan <vlan>`
pub open spec fn vport_map_line(index: nat, vlan: u16) -> Seq<char> {
    "vport-map 1 "@ + decimal(index) + " vlan "@ + decimal(vlan as nat)
}

/// `service-port <k> user-vlan <vlan> vlan <vlan>`
pub open spec fn service_port_line(k: u8, vlan: u16) -> Seq<char> {
    "service-port "@ + decimal(k as nat) + " user-vlan "@ + decimal(vlan as nat) + " vlan "@
        + decimal(vlan as nat)
}

/// `service <k> gemport 1 vlan <vlan>`
pub open spec fn service_line(k: u8, vlan: u16) -> Seq<char> {
    "service "@ + decimal(k as nat) + " gemport "@ + decimal(1) + " vlan "@ + decimal(vlan as nat)
}

/// `wan-ip ipv4 mode <mode> vlan-profile <vlan> host <k>`
pub open spec fn wan_ip_line(k: u8, vlan: u16, mode: WanModeView) -> Seq<char> {
    "wan-ip ipv4"@ + " "@ + wan_mode_text(mode) + " vlan-profile "@ + decimal(vlan as nat)
        + " host "@ + decimal(k as nat)
}

/// `security-mgmt <k> state enable mode forward ingress-type iphost 1 protocol Web`
pub open spec fn web_access_line(k: u8) -> Seq<char> {
    "security-mgmt "@ + decimal(k as nat) + " state "@ + "enable"@ + " mode "@ + "forward"@
        + " ingress-type "@ + ("iphost "@ + decimal(1)) + " protocol "@ + "Web"@
}

/// The `vport-map` lines of the first `n` services.
pub open spec fn vport_map_lines(services: Seq<ServiceView>, n: nat) -> Seq<Tree>
    decreases n,
{
    if n == 0 || n > services.len() {
        Seq::empty()
    } else {
        vport_map_lines(services, (n - 1) as nat).push(
            leaf(vport_map_line((n - 1) as nat, services[n - 1].vlan.id)),
        )
    }
}

/// The lines that enter the virtual ports of the first `n` services.
pub open spec fn vport_enter_lines(o: OnuView, n: nat) -> Seq<Tree>
    decreases n,
{
    if n == 0 || n > o.services.len() || n > 255 {
        Seq::empty()
    } else {
        vport_enter_lines(o, (n - 1) as nat).push(
            leaf(
                "interface"@ + " "@ + vport_address(
                    o.interface.slot,
                    o.interface.port,
                    o.interface.id->0,
                    n as u8,
                ),
            ),
        )
    }
}

/// The blocks that set up the virtual ports of the first `n` services.
pub open spec fn vport_blocks(o: OnuView, n: nat) -> Seq<Tree>
    decreases n,
{
    if n == 0 || n > o.services.len() || n > 255 {
        Seq::empty()
    } else {
        vport_blocks(o, (n - 1) as nat).push(
            Tree {
                line: "interface"@ + " "@ + vport_address(
                    o.interface.slot,
                    o.interface.port,
                    o.interface.id->0,
                    n as u8,
                ),
                kids: Some(seq![leaf(service_port_line(n as u8, o.services[n - 1].vlan.id))]),
            },
        )
    }
}

/// The management lines of the service at position `k`, counted from one:
/// its `service` line and, where its VLAN has a way of access, the line of
/// its connection and the rule that opens its web interface.
pub open spec fn service_lines(service: ServiceView, k: u8) -> Seq<Tree> {
    match service.vlan.service {
        None => seq![leaf(service_line(k, service.vlan.id))],
        Some(mode) => seq![
            leaf(service_line(k, service.vlan.id)),
            leaf(wan_ip_line(k, service.vlan.id, mode)),
            leaf(web_access_line(k)),
        ],
    }
}

/// The management lines of the first `n` services.
pub open spec fn management_lines(services: Seq<ServiceView>, n: nat) -> Seq<Tree>
    decreases n,
{
    if n == 0 || n > services.len() || n > 255 {
        Seq::empty()
    } else {
        management_lines(services, (n - 1) as nat) + service_lines(services[n - 1], n as u8)
    }
}

/// The block that registers the unit at its port of the head end.
pub open spec fn olt_block(o: OnuView) -> Tree {
    Tree {
        line: "interface"@ + " "@ + olt_address(o.interface.slot, o.interface.port),
        kids: Some(seq![leaf(onu_line(o.interface.id->0, o.model, o.sn))]),
    }
}

/// The line that enters the unit's own interface.
pub open spec fn onu_enter_line(o: OnuView) -> Seq<char> {
    "interface"@ + " "@ + onu_address(o.interface.slot, o.interface.port, o.interface.id->0)
}

/// The block that sets up the unit's own interface.
pub open spec fn onu_block(o: OnuView) -> Tree {
    Tree {
        line: onu_enter_line(o),
        kids: Some(
            seq![
                leaf("tcont "@ + decimal(1) + " profile "@ + "1G"@),
                leaf("gemport "@ + decimal(1) + " tcont "@ + decimal(1)),
                leaf("vport-mode manual"@),
                leaf("vport 1 map-type vlan"@),
            ] + vport_map_lines(o.services, o.services.len()),
        ),
    }
}

/// The block that manages the unit's services from the head end. With no
/// service it is the entering line alone.
pub open spec fn management_block(o: OnuView) -> Tree {
    Tree {
        line: "pon-onu-mng "@ + onu_address(o.interface.slot, o.interface.port, o.interface.id->0),
        kids: if o.services.len() == 0 {
            None
        } else {
            Some(management_lines(o.services, o.services.len()))
        },
    }
}

/// The script that provisions a unit, section by section: the lines that
/// enter the unit's interfaces in `if-intf`; in `xpon` the block that
/// registers the unit, the block of its own interface and the block that
/// manages its services; in `MSAN` the blocks of its virtual ports, and `end`.
pub open spec fn provisioning_script(o: OnuView) -> Seq<(Seq<char>, Seq<Tree>)> {
    seq![
        ("if-intf"@, seq![leaf(onu_enter_line(o))] + vport_enter_lines(o, o.services.len())),
        ("xpon"@, seq![olt_block(o), onu_block(o), management_block(o)]),
        ("MSAN"@, vport_blocks(o, o.services.len()).push(leaf("end"@))),
    ]
}

impl Onu {
    /// The script that provisions the unit: the block that registers it at
    /// its port, the block of its own interface, one block for the virtual
    /// port of each service, the block that manages its services, and `end`.
    /// The services are numbered from one, in the order of the list.
    pub fn configure_script(&self) -> (out: Config)
        requires
            self@.interface.id is Some,
            self@.services.len() <= 255,
        ensures
            out@ == provisioning_script(self@),
            out.wf(),
    {
        let ghost o = self@;
        let ghost views = self@.services;
        let interface = self.interface();
        let services = self.services();
        let id = interface.id.unwrap();
        let count = services.len();

        let enter_olt = Command::builder().interface().gpon_olt(interface);
        let mut olt = NestedCommand::from(enter_olt.line().clone());
        let add_onu = enter_olt.onu(id).onu_type(self.model()).sn(self.sn()).run();
        olt.nest(NestedCommand::from(add_onu));
        assert(olt@.kids->0 =~= seq![leaf(onu_line(o.interface.id->0, o.model, o.sn))]);
        assert(olt@ == olt_block(o));

        let enter_onu = Command::builder().interface().gpon_onu(interface);
        let mut if_intf: Vec<NestedCommand> = Vec::new();
        push_tree(&mut if_intf, NestedCommand::from(enter_onu.line().clone()));
        assert(forest(if_intf@) =~= seq![leaf(onu_enter_line(o))]);

        let mut onu_if = NestedCommand::from(enter_onu.line().clone());
        onu_if.nest(NestedCommand::from(enter_onu.clone().tcont(1).profile("1G")));
        onu_if.nest(NestedCommand::from(enter_onu.gemport(1).tcont(1).run()));
        onu_if.nest(NestedCommand::from(Command::from("vport-mode manual")));
        onu_if.nest(NestedCommand::from(Command::from("vport 1 map-type vlan")));
        let ghost fixed = seq![
            leaf("tcont "@ + decimal(1) + " profile "@ + "1G"@),
            leaf("gemport "@ + decimal(1) + " tcont "@ + decimal(1)),
            leaf("vport-mode manual"@),
            leaf("vport 1 map-type vlan"@),
        ];
        assert(onu_if@.kids->0 =~= fixed + vport_map_lines(views, 0));
        let mut i: usize = 0;
        while i < count
            invariant
                i <= count,
                count == services@.len(),
                count <= 255,
                views == service_views(services@),
                onu_if@.line == onu_enter_line(o),
                onu_if@.kids == Some(fixed + vport_map_lines(views, i as nat)),
            decreases count - i,
        {
            assert(views[i as int] == services@[i as int]@);
            let mut text = String::from_str("vport-map 1 ");
            push_decimal(&mut text, i as u16);
            text.append(" vlan ");
            push_decimal(&mut text, services[i].vlan.id);
            onu_if.nest(NestedCommand::from(Command::from(text)));
            i = i + 1;
            assert(onu_if@.kids->0 =~= fixed + vport_map_lines(views, i as nat));
        }
        assert(onu_if@ == onu_block(o));

        let mut msan: Vec<NestedCommand> = Vec::new();
        assert(forest(msan@) =~= vport_blocks(o, 0));
        let ghost head = seq![leaf(onu_enter_line(o))];
        assert(forest(if_intf@) =~= head + vport_enter_lines(o, 0));
        let mut k: usize = 0;
        while k < count
            invariant
                k <= count,
                count == services@.len(),
                count <= 255,
                o == self@,
                o.interface.id is Some,
                interface@ == o.interface,
                views == o.services,
                views == service_views(services@),
                head == seq![leaf(onu_enter_line(o))],
                forest(if_intf@) == head + vport_enter_lines(o, k as nat),
                forest(msan@) == vport_blocks(o, k as nat),
            decreases count - k,
        {
            assert(views[k as int] == services@[k as int]@);
            let vport_id = (k + 1) as u8;
            let vlan = services[k].vlan.id;
            let enter_vport = Command::builder().interface().vport(interface, vport_id);
            let mut block = NestedCommand::from(enter_vport.line().clone());
            push_tree(&mut if_intf, NestedCommand::from(enter_vport.line().clone()));
            let service_port = enter_vport.service_port(vport_id).user_vlan(vlan).vlan(vlan).run();
            block.nest(NestedCommand::from(service_port));
            assert(block@.kids->0 =~= seq![leaf(service_port_line(vport_id, vlan))]);
            push_tree(&mut msan, block);
            k = k + 1;
            assert(forest(if_intf@) =~= head + vport_enter_lines(o, k as nat));
            assert(forest(msan@) =~= vport_blocks(o, k as nat));
        }
        push_tree(&mut msan, NestedCommand::from(Command::end()));

        let enter_mng = Command::builder().pon_onu_mng(interface);
        let mut mng = NestedCommand::from(enter_mng.line().clone());
        let mut n: usize = 0;
        while n < count
            invariant
                n <= count,
                count == services@.len(),
                count <= 255,
                views == service_views(services@),
                mng@.line == management_block(o).line,
                n == 0 ==> mng@.kids is None,
                n > 0 ==> mng@.kids == Some(management_lines(views, n as nat)),
            decreases count - n,
        {
            assert(views[n as int] == services@[n as int]@);
            let ghost before = mng@.kids;
            let service_id = (n + 1) as u8;
            let vlan = services[n].vlan.id;
            let line = enter_mng.clone().service(service_id).gemport(1).vlan(vlan);
            mng.nest(NestedCommand::from(line));
            match &services[n].vlan.service {
                None => {},
                Some(mode) => {
                    let wan = enter_mng.clone().wan_ip().mode(mode.clone()).vlan_profile(vlan).host(
                        service_id,
                    );
                    mng.nest(NestedCommand::from(wan));
                    let rule = enter_mng.clone().security_mgmt(service_id).state(true).mode(
                        true,
                    ).ingress_type(IngressType::Iphost(1)).protocol(Protocol::Web);
                    mng.nest(NestedCommand::from(rule));
                },
            }
            n = n + 1;
            proof {
                let lines = service_lines(views[n - 1], n as u8);
                if n == 1 {
                    assert(management_lines(views, 0) =~= Seq::empty());
                    assert(mng@.kids->0 =~= management_lines(views, 0) + lines);
                } else {
                    assert(mng@.kids->0 =~= before->0 + lines);
                }
            }
        }
        assert(mng@ == management_block(o));

        let mut xpon: Vec<NestedCommand> = Vec::new();
        push_tree(&mut xpon, olt);
        push_tree(&mut xpon, onu_if);
        push_tree(&mut xpon, mng);
        assert(forest(xpon@) =~= seq![olt_block(o), onu_block(o), management_block(o)]);

        let mut all: Vec<(ConfigField, Vec<NestedCommand>)> = Vec::new();
        all.push((ConfigField::from("if-intf"), if_intf));
        all.push((ConfigField::from("xpon"), xpon));
        all.push((ConfigField::from("MSAN"), msan));
        let out = Config(all);
        proof {
            assert(out@ =~= provisioning_script(o));
            lemma_script_names(o);
        }
        out
    }
}

/// The three sections of a provisioning script have three names.
pub proof fn lemma_script_names(o: OnuView)
    ensures
        distinct_names(provisioning_script(o)),
{
    reveal_strlit("if-intf");
    reveal_strlit("xpon");
    reveal_strlit("MSAN");
    assert("if-intf"@.len() == 7);
    assert("xpon"@.len() == 4);
    assert("MSAN"@[0] == 'M');
    assert("xpon"@[0] == 'x');
}

/// The unit that a record describes: at `interface`, with one service on
/// the VLAN `vlan`, whose way of access is PPPoE with the record's
/// credentials.
pub open spec fn unit_of(info: ConfigInfo, vlan: u16, interface: InterfaceView) -> OnuView {
    OnuView {
        interface,
        model: info.model@,
        sn: info.sn@,
        services: seq![
            ServiceView {
                vlan: VlanView {
                    id: vlan,
                    service: Some(
                        WanModeView::PPPoE {
                            username: info.pppoe_user@,
                            password: info.pppoe_password@,
                        },
                    ),
                },
                upload: None,
                download: None,
            },
        ],
    }
}

/// The scripts of the units of the first `n` records, merged one after the
/// other.
pub open spec fn batch_script(
    infos: Seq<ConfigInfo>,
    vlan: u16,
    interface: InterfaceView,
    n: nat,
) -> Seq<(Seq<char>, Seq<Tree>)>
    decreases n,
{
    if n == 0 || n > infos.len() {
        Seq::empty()
    } else {
        let script = provisioning_script(unit_of(infos[n - 1], vlan, interface));
        merged(batch_script(infos, vlan, interface, (n - 1) as nat), script, script.len())
    }
}

impl Command {
    /// The script that provisions one unit for each record, all at
    /// `interface` and on the VLAN `vlan`, each with a PPPoE connection.
    /// With no record the script is empty, whatever `interface` is.
    pub fn onu_script(configurations: &Vec<ConfigInfo>, vlan: u16, interface: &Interface) -> (out:
        Config)
        requires
            configurations@.len() > 0 ==> interface@.id is Some,
        ensures
            out@ == batch_script(configurations@, vlan, interface@, configurations@.len()),
            out.wf(),
    {
        let mut out = Config::default();
        let mut n: usize = 0;
        while n < configurations.len()
            invariant
                n <= configurations.len(),
                configurations@.len() > 0 ==> interface@.id is Some,
                out@ == batch_script(configurations@, vlan, interface@, n as nat),
                out.wf(),
            decreases configurations.len() - n,
        {
            let info = &configurations[n];
            let mut access = Vlan::new(vlan);
            access.pppoe(info.pppoe_user.as_str(), info.pppoe_password.as_str());
            let mut services: Vec<OnuService> = Vec::new();
            services.push(OnuService::new(access));
            let unit = Onu::new(interface.clone(), info.model.as_str(), info.sn.as_str(), services);
            assert(unit@.services =~= unit_of(*info, vlan, interface@).services);
            assert(unit@ == unit_of(*info, vlan, interface@));
            out.merge(unit.configure_script());
            n = n + 1;
        }
        out
    }
}

/// Two units that are equal as values get the same script, line for line
/// and character for character.
pub proof fn lemma_generation_is_a_function(a: Onu, b: Onu)
    requires
        a@ == b@,
    ensures
        provisioning_script(a@) == provisioning_script(b@),
        sections_text(provisioning_script(a@), 3)
            == sections_text(provisioning_script(b@), 3),
{
}

} // verus!
