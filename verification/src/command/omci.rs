use super::{join, join_number, word_number, stage};
use super::{CmdArg0, CmdArg1, CmdArg2, CmdArg3, CmdArg4, Command, CommandBuilder, Omci};
use crate::text::decimal;
use vstd::prelude::*;

verus! {

/// How a unit gets its address on the access network.
#[derive(Debug, PartialEq, Eq)]
pub enum WanMode {
    PPPoE { username: String, password: String },
    Dhcp,
}

/// A way of access as a mathematical value.
pub enum WanModeView {
    PPPoE { username: Seq<char>, password: Seq<char> },
    Dhcp,
}

impl View for WanMode {
    type V = WanModeView;

    open spec fn view(&self) -> WanModeView {
        match self {
            WanMode::PPPoE { username, password } => WanModeView::PPPoE {
                username: username@,
                password: password@,
            },
            WanMode::Dhcp => WanModeView::Dhcp,
        }
    }
}

impl Clone for WanMode {
    fn clone(&self) -> (out: Self)
        ensures
            out@ == self@,
    {
        match self {
            WanMode::PPPoE { username, password } => WanMode::PPPoE {
                username: username.clone(),
                password: password.clone(),
            },
            WanMode::Dhcp => WanMode::Dhcp,
        }
    }
}

/// Where the traffic that a rule judges comes in.
#[derive(Debug)]
pub enum IngressType {
    Iphost(u8),
    Wan,
    Lan,
}

/// The protocol that a rule judges.
#[derive(Debug)]
pub enum Protocol {
    Web,
    Telnet,
    Ssh,
    Ftp,
    Snmp,
    Tr069,
    Https,
}

/// `mode dhcp`, or `mode pppoe username <u> password <p>`.
pub open spec fn wan_mode_text(mode: WanModeView) -> Seq<char> {
    match mode {
        WanModeView::Dhcp => "mode dhcp"@,
        WanModeView::PPPoE { username, password } => "mode pppoe username "@ + username
            + " password "@ + password,
    }
}

/// `iphost <n>`, `wan` or `lan`.
pub open spec fn ingress_text(ingress: IngressType) -> Seq<char> {
    match ingress {
        IngressType::Iphost(n) => "iphost "@ + decimal(n as nat),
        IngressType::Wan => "wan"@,
        IngressType::Lan => "lan"@,
    }
}

/// The name of a protocol as the equipment writes it.
pub open spec fn protocol_text(protocol: Protocol) -> Seq<char> {
    match protocol {
        Protocol::Web => "Web"@,
        Protocol::Telnet => "Telnet"@,
        Protocol::Ssh => "Ssh"@,
        Protocol::Ftp => "Ftp"@,
        Protocol::Snmp => "Snmp"@,
        Protocol::Tr069 => "Tr069"@,
        Protocol::Https => "Https"@,
    }
}

impl CommandBuilder<Omci, CmdArg0> {
    /// Starts the line on service `number`.
    pub fn service(self, number: u8) -> (out: CommandBuilder<Omci, CmdArg1>)
        ensures
            out@ == "service "@ + decimal(number as nat),
    {
        stage(word_number("service ", number as u16))
    }

    /// Starts the line that sets up the unit's own connection.
    pub fn wan_ip(self) -> (out: CommandBuilder<Omci, CmdArg1>)
        ensures
            out@ == "wan-ip ipv4"@,
    {
        stage(String::from_str("wan-ip ipv4"))
    }

    /// Starts access rule `number`.
    pub fn security_mgmt(self, number: u8) -> (out: CommandBuilder<Omci, CmdArg1>)
        ensures
            out@ == "security-mgmt "@ + decimal(number as nat),
    {
        stage(word_number("security-mgmt ", number as u16))
    }
}

impl CommandBuilder<Omci, CmdArg1> {
    /// Binds the service to gemport `number`.
    pub fn gemport(self, number: u8) -> (out: CommandBuilder<Omci, CmdArg2>)
        ensures
            out@ == self@ + " gemport "@ + decimal(number as nat),
    {
        stage(join_number(self.command.as_str(), " gemport ", number as u16))
    }

    /// Gives the way of access of the connection.
    pub fn mode(self, mode: WanMode) -> (out: CommandBuilder<Omci, CmdArg3>)
        ensures
            out@ == self@ + " "@ + wan_mode_text(mode@),
    {
        let mut text = join(self.command.as_str(), " ");
        match mode {
            WanMode::Dhcp => {
                text.append("mode dhcp");
            },
            WanMode::PPPoE { username, password } => {
                text.append("mode pppoe username ");
                text.append(username.as_str());
                text.append(" password ");
                text.append(password.as_str());
                assert(text@ =~= self@ + " "@ + wan_mode_text(mode@));
            },
        }
        stage(text)
    }

    /// Switches the rule on or off.
    pub fn state(self, enable: bool) -> (out: CommandBuilder<Omci, CmdArg2>)
        ensures
            out@ == self@ + " state "@ + (if enable {
                "enable"@
            } else {
                "disable"@
            }),
    {
        let mut text = join(self.command.as_str(), " state ");
        if enable {
            text.append("enable");
        } else {
            text.append("disable");
        }
        stage(text)
    }
}

impl CommandBuilder<Omci, CmdArg2> {
    /// The finished line.
    pub fn run(self) -> (out: Command)
        ensures
            out@ == self@,
    {
        self.command
    }

    /// The finished line, with the service's VLAN.
    pub fn vlan(self, vlan: u16) -> (out: Command)
        ensures
            out@ == self@ + " vlan "@ + decimal(vlan as nat),
    {
        Command(join_number(self.command.as_str(), " vlan ", vlan))
    }

    /// Says whether the rule lets traffic through.
    pub fn mode(self, value: bool) -> (out: CommandBuilder<Omci, CmdArg3>)
        ensures
            out@ == self@ + " mode "@ + (if value {
                "forward"@
            } else {
                "discard"@
            }),
    {
        let mut text = join(self.command.as_str(), " mode ");
        if value {
            text.append("forward");
        } else {
            text.append("discard");
        }
        stage(text)
    }
}

impl CommandBuilder<Omci, CmdArg3> {
    /// Gives the VLAN of the connection.
    pub fn vlan_profile(self, vlan: u16) -> (out: CommandBuilder<Omci, CmdArg4>)
        ensures
            out@ == self@ + " vlan-profile "@ + decimal(vlan as nat),
    {
        stage(join_number(self.command.as_str(), " vlan-profile ", vlan))
    }

    /// Says where the traffic that the rule judges comes in.
    pub fn ingress_type(self, ingress: IngressType) -> (out: CommandBuilder<Omci, CmdArg4>)
        ensures
            out@ == self@ + " ingress-type "@ + ingress_text(ingress),
    {
        let text = match ingress {
            IngressType::Iphost(n) => {
                let mut text = join(self.command.as_str(), " ingress-type ");
                text.append("iphost ");
                super::super::text::push_decimal(&mut text, n as u16);
                assert(text@ =~= self@ + " ingress-type "@ + ingress_text(ingress));
                text
            },
            IngressType::Wan => {
                let mut text = join(self.command.as_str(), " ingress-type ");
                text.append("wan");
                text
            },
            IngressType::Lan => {
                let mut text = join(self.command.as_str(), " ingress-type ");
                text.append("lan");
                text
            },
        };
        stage(text)
    }
}

impl CommandBuilder<Omci, CmdArg4> {
    /// The finished line of a connection, on host `number`.
    pub fn host(self, number: u8) -> (out: Command)
        ensures
            out@ == self@ + " host "@ + decimal(number as nat),
    {
        Command(join_number(self.command.as_str(), " host ", number as u16))
    }

    /// The finished line of a rule, for `prot`.
    pub fn protocol(self, prot: Protocol) -> (out: Command)
        ensures
            out@ == self@ + " protocol "@ + protocol_text(prot),
    {
        let mut text = join(self.command.as_str(), " protocol ");
        match prot {
            Protocol::Web => text.append("Web"),
            Protocol::Telnet => text.append("Telnet"),
            Protocol::Ssh => text.append("Ssh"),
            Protocol::Ftp => text.append("Ftp"),
            Protocol::Snmp => text.append("Snmp"),
            Protocol::Tr069 => text.append("Tr069"),
            Protocol::Https => text.append("Https"),
        }
        Command(text)
    }
}

} // verus!
