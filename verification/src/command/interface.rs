use super::{join, join_number, word_number, olt_address, onu_address, stage, vport_address};
use super::{CmdArg0, CmdArg1, CmdArg2, CmdArg3, CmdArg4, Command, CommandBuilder};
use crate::olt::Interface;
use crate::text::{decimal, push_decimal};
use vstd::prelude::*;

verus! {

/// The mode of a port of the head end.
#[derive(Clone, Copy, Debug)]
pub struct InterfaceOlt;

/// The mode of a unit's own interface.
#[derive(Clone, Copy, Debug)]
pub struct InterfaceOnu;

/// The mode of a virtual port of a unit.
#[derive(Clone, Copy, Debug)]
pub struct InterfaceVport;

impl CommandBuilder<Interface, CmdArg0> {
    /// Names the port of the head end to enter.
    pub fn gpon_olt(self, interface: &Interface) -> (out: CommandBuilder<InterfaceOlt, CmdArg0>)
        ensures
            out@ == self@ + " "@ + olt_address(interface.slot, interface.port),
    {
        let mut text = join_number(self.command.as_str(), " gpon_olt-1/", interface.slot as u16);
        text.append("/");
        push_decimal(&mut text, interface.port as u16);
        proof {
            reveal_strlit(" gpon_olt-1/");
            reveal_strlit(" ");
            reveal_strlit("gpon_olt-1/");
            assert(" gpon_olt-1/"@ =~= " "@ + "gpon_olt-1/"@);
            assert(text@ =~= self@ + " "@ + olt_address(interface.slot, interface.port));
        }
        stage(text)
    }

    /// Names the unit whose interface to enter.
    pub fn gpon_onu(self, interface: &Interface) -> (out: CommandBuilder<InterfaceOnu, CmdArg0>)
        requires
            interface.id is Some,
        ensures
            out@ == self@ + " "@ + onu_address(interface.slot, interface.port, interface.id->0),
    {
        let mut text = join_number(self.command.as_str(), " gpon_onu-1/", interface.slot as u16);
        text.append("/");
        push_decimal(&mut text, interface.port as u16);
        text.append(":");
        push_decimal(&mut text, interface.id.unwrap() as u16);
        proof {
            reveal_strlit(" gpon_onu-1/");
            reveal_strlit(" ");
            reveal_strlit("gpon_onu-1/");
            assert(" gpon_onu-1/"@ =~= " "@ + "gpon_onu-1/"@);
            assert(text@ =~= self@ + " "@ + onu_address(
                interface.slot,
                interface.port,
                interface.id->0,
            ));
        }
        stage(text)
    }

    /// Names the virtual port `service` of a unit to enter.
    pub fn vport(self, interface: &Interface, service: u8) -> (out: CommandBuilder<
        InterfaceVport,
        CmdArg0,
    >)
        requires
            interface.id is Some,
        ensures
            out@ == self@ + " "@ + vport_address(
                interface.slot,
                interface.port,
                interface.id->0,
                service,
            ),
    {
        let mut text = join_number(self.command.as_str(), " vport-1/", interface.slot as u16);
        text.append("/");
        push_decimal(&mut text, interface.port as u16);
        text.append(".");
        push_decimal(&mut text, interface.id.unwrap() as u16);
        text.append(":");
        push_decimal(&mut text, service as u16);
        proof {
            reveal_strlit(" vport-1/");
            reveal_strlit(" ");
            reveal_strlit("vport-1/");
            assert(" vport-1/"@ =~= " "@ + "vport-1/"@);
            assert(text@ =~= self@ + " "@ + vport_address(
                interface.slot,
                interface.port,
                interface.id->0,
                service,
            ));
        }
        stage(text)
    }
}

impl CommandBuilder<InterfaceOlt, CmdArg0> {
    /// Starts the line that registers unit `id`.
    pub fn onu(self, id: u8) -> (out: CommandBuilder<InterfaceOlt, CmdArg1>)
        ensures
            out@ == "onu "@ + decimal(id as nat),
    {
        stage(word_number("onu ", id as u16))
    }
}

impl CommandBuilder<InterfaceOlt, CmdArg1> {
    /// Gives the unit's hardware model.
    pub fn onu_type(self, onu_type: &str) -> (out: CommandBuilder<InterfaceOlt, CmdArg2>)
        ensures
            out@ == self@ + " type "@ + onu_type@,
    {
        let mut text = join(self.command.as_str(), " type ");
        text.append(onu_type);
        stage(text)
    }
}

impl CommandBuilder<InterfaceOlt, CmdArg2> {
    /// Gives the unit's serial number.
    pub fn sn(self, sn: &str) -> (out: CommandBuilder<InterfaceOlt, CmdArg3>)
        ensures
            out@ == self@ + " sn "@ + sn@,
    {
        let mut text = join(self.command.as_str(), " sn ");
        text.append(sn);
        stage(text)
    }
}

impl CommandBuilder<InterfaceOlt, CmdArg3> {
    /// The finished line.
    pub fn run(self) -> (out: Command)
        ensures
            out@ == self@,
    {
        self.command
    }

    /// Goes on to choose how virtual ports are made.
    pub fn vport_mode(self) -> (out: CommandBuilder<InterfaceOlt, CmdArg4>)
        ensures
            out@ == self@ + " vport_mode"@,
    {
        stage(join(self.command.as_str(), " vport_mode"))
    }
}

impl CommandBuilder<InterfaceOlt, CmdArg4> {
    /// The finished line, with one virtual port for each gemport.
    pub fn gemport(self) -> (out: Command)
        ensures
            out@ == self@ + " gemport"@,
    {
        Command(join(self.command.as_str(), " gemport"))
    }

    /// The finished line, with virtual ports made by hand.
    pub fn manual(self) -> (out: Command)
        ensures
            out@ == self@ + " manual"@,
    {
        Command(join(self.command.as_str(), " manual"))
    }
}

impl CommandBuilder<InterfaceOnu, CmdArg0> {
    /// Starts a line on traffic container `number`.
    pub fn tcont(self, number: u8) -> (out: CommandBuilder<InterfaceOnu, CmdArg1>)
        ensures
            out@ == "tcont "@ + decimal(number as nat),
    {
        stage(word_number("tcont ", number as u16))
    }

    /// Starts a line on gemport `number`.
    pub fn gemport(self, number: u8) -> (out: CommandBuilder<InterfaceOnu, CmdArg1>)
        ensures
            out@ == "gemport "@ + decimal(number as nat),
    {
        stage(word_number("gemport ", number as u16))
    }
}

impl CommandBuilder<InterfaceOnu, CmdArg1> {
    /// The finished line, with the bandwidth profile `prof`.
    pub fn profile(self, prof: &str) -> (out: Command)
        ensures
            out@ == self@ + " profile "@ + prof@,
    {
        let mut text = join(self.command.as_str(), " profile ");
        text.append(prof);
        Command(text)
    }

    /// Binds the line to traffic container `number`.
    pub fn tcont(self, number: u8) -> (out: CommandBuilder<InterfaceOnu, CmdArg2>)
        ensures
            out@ == self@ + " tcont "@ + decimal(number as nat),
    {
        stage(join_number(self.command.as_str(), " tcont ", number as u16))
    }
}

impl CommandBuilder<InterfaceOnu, CmdArg2> {
    /// The finished line.
    pub fn run(self) -> (out: Command)
        ensures
            out@ == self@,
    {
        self.command
    }
}

impl CommandBuilder<InterfaceVport, CmdArg0> {
    /// Starts the line on service port `number`.
    pub fn service_port(self, number: u8) -> (out: CommandBuilder<InterfaceVport, CmdArg1>)
        ensures
            out@ == "service-port "@ + decimal(number as nat),
    {
        stage(word_number("service-port ", number as u16))
    }
}

impl CommandBuilder<InterfaceVport, CmdArg1> {
    /// Gives the VLAN on the user's side.
    pub fn user_vlan(self, vlan: u16) -> (out: CommandBuilder<InterfaceVport, CmdArg2>)
        ensures
            out@ == self@ + " user-vlan "@ + decimal(vlan as nat),
    {
        stage(join_number(self.command.as_str(), " user-vlan ", vlan))
    }
}

impl CommandBuilder<InterfaceVport, CmdArg2> {
    /// Gives the VLAN on the network's side.
    pub fn vlan(self, vlan: u16) -> (out: CommandBuilder<InterfaceVport, CmdArg3>)
        ensures
            out@ == self@ + " vlan "@ + decimal(vlan as nat),
    {
        stage(join_number(self.command.as_str(), " vlan ", vlan))
    }
}

impl CommandBuilder<InterfaceVport, CmdArg3> {
    /// The finished line.
    pub fn run(self) -> (out: Command)
        ensures
            out@ == self@,
    {
        self.command
    }
}

} // verus!
