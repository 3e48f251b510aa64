use crate::olt::Interface;
use crate::text::{decimal, push_decimal};
use std::marker::PhantomData;
use vstd::prelude::*;
use vstd::std_specs::cmp::PartialEqSpecImpl;

pub mod interface;
pub mod omci;

verus! {

/// The global configuration mode.
#[derive(Clone, Copy)]
pub struct ConfT;

/// The mode that manages a unit from the head end.
#[derive(Clone, Copy)]
pub struct Omci;

/// The stage of a command that has no argument yet.
#[derive(Clone, Copy)]
pub struct CmdArg0;

/// The stage of a command that has its first argument.
#[derive(Clone, Copy)]
pub struct CmdArg1;

/// The stage of a command that has two arguments.
#[derive(Clone, Copy)]
pub struct CmdArg2;

/// The stage of a command that has three arguments.
#[derive(Clone, Copy)]
pub struct CmdArg3;

/// The stage of a command that has four arguments.
#[derive(Clone, Copy)]
pub struct CmdArg4;

/// One line of rendered text.
#[derive(Debug)]
pub struct Command(pub String);

impl View for Command {
    type V = Seq<char>;

    open spec fn view(&self) -> Seq<char> {
        self.0@
    }
}

impl PartialEq for Command {
    fn eq(&self, other: &Command) -> (out: bool) {
        self.0 == other.0
    }
}

impl PartialEqSpecImpl for Command {
    open spec fn obeys_eq_spec() -> bool {
        true
    }

    /// Two commands are equal where their texts are.
    open spec fn eq_spec(&self, other: &Command) -> bool {
        self@ == other@
    }
}

impl Eq for Command {

}

impl Clone for Command {
    fn clone(&self) -> (out: Self)
        ensures
            out@ == self@,
    {
        Command(self.0.clone())
    }
}

impl From<&str> for Command {
    fn from(value: &str) -> (out: Command)
        ensures
            out@ == value@,
    {
        Command(String::from_str(value))
    }
}

impl vstd::std_specs::convert::FromSpecImpl<&str> for Command {
    open spec fn obeys_from_spec() -> bool {
        false
    }

    open spec fn from_spec(v: &str) -> Command {
        arbitrary()
    }
}

impl From<String> for Command {
    fn from(value: String) -> (out: Command)
        ensures
            out@ == value@,
    {
        Command(value)
    }
}

impl vstd::std_specs::convert::FromSpecImpl<String> for Command {
    open spec fn obeys_from_spec() -> bool {
        true
    }

    open spec fn from_spec(v: String) -> Command {
        Command(v)
    }
}

impl Command {
    /// The line as a text.
    pub fn as_str(&self) -> (out: &str)
        ensures
            out@ == self@,
    {
        self.0.as_str()
    }

    /// The line as an owned text.
    pub fn raw(&self) -> (out: String)
        ensures
            out@ == self@,
    {
        self.0.clone()
    }

    /// The line that leaves the current mode.
    pub fn exit() -> (out: Command)
        ensures
            out@ == "exit"@,
    {
        Command(String::from_str("exit"))
    }

    /// The line that saves the configuration.
    pub fn write() -> (out: Command)
        ensures
            out@ == "do write"@,
    {
        Command(String::from_str("do write"))
    }

    /// The line that leaves configuration mode.
    pub fn end() -> (out: Command)
        ensures
            out@ == "end"@,
    {
        Command(String::from_str("end"))
    }

    /// A builder at its start, in global configuration mode.
    pub fn builder() -> (out: CommandBuilder<ConfT, CmdArg0>)
        ensures
            out@ == "configure terminal"@,
    {
        CommandBuilder::new()
    }
}

/// A command under construction: `T` is the mode it is built in, `U` the
/// stage it has reached. Each stage offers only the steps that may follow it.
pub struct CommandBuilder<T: Clone, U: Clone> {
    pub command: Command,
    command_level: PhantomData<T>,
    arg: PhantomData<U>,
}

impl<T: Clone, U: Clone> View for CommandBuilder<T, U> {
    type V = Seq<char>;

    closed spec fn view(&self) -> Seq<char> {
        self.command@
    }
}

impl<T: Clone, U: Clone> CommandBuilder<T, U> {
    /// The text gathered so far.
    pub fn line(&self) -> (out: &Command)
        ensures
            out@ == self@,
    {
        &self.command
    }
}

impl<T: Clone, U: Clone> Clone for CommandBuilder<T, U> {
    fn clone(&self) -> (out: Self)
        ensures
            out@ == self@,
    {
        CommandBuilder { command: self.command.clone(), command_level: PhantomData, arg: PhantomData }
    }
}

/// `gpon_olt-1/<slot>/<port>`
pub open spec fn olt_address(slot: u8, port: u8) -> Seq<char> {
    "gpon_olt-1/"@ + decimal(slot as nat) + "/"@ + decimal(port as nat)
}

/// `gpon_onu-1/<slot>/<port>:<id>`
pub open spec fn onu_address(slot: u8, port: u8, id: u8) -> Seq<char> {
    "gpon_onu-1/"@ + decimal(slot as nat) + "/"@ + decimal(port as nat) + ":"@ + decimal(id as nat)
}

/// `vport-1/<slot>/<port>.<id>:<service>`
pub open spec fn vport_address(slot: u8, port: u8, id: u8, service: u8) -> Seq<char> {
    "vport-1/"@ + decimal(slot as nat) + "/"@ + decimal(port as nat) + "."@ + decimal(id as nat)
        + ":"@ + decimal(service as nat)
}

/// A builder that holds `text`, in whatever mode and stage the caller names.
fn stage<T: Clone, U: Clone>(text: String) -> (out: CommandBuilder<T, U>)
    ensures
        out@ == text@,
{
    CommandBuilder { command: Command(text), command_level: PhantomData, arg: PhantomData }
}

/// `base`, then `word`.
fn join(base: &str, word: &str) -> (out: String)
    ensures
        out@ == base@ + word@,
{
    let mut out = String::from_str(base);
    out.append(word);
    out
}

/// `word`, then the numeral of `n`.
fn word_number(word: &str, n: u16) -> (out: String)
    ensures
        out@ == word@ + decimal(n as nat),
{
    let mut out = String::from_str(word);
    push_decimal(&mut out, n);
    out
}

/// `base`, then `word`, then the numeral of `n`.
fn join_number(base: &str, word: &str, n: u16) -> (out: String)
    ensures
        out@ == base@ + word@ + decimal(n as nat),
{
    let mut out = String::from_str(base);
    out.append(word);
    push_decimal(&mut out, n);
    out
}

impl CommandBuilder<ConfT, CmdArg0> {
    /// Enters global configuration mode.
    pub fn new() -> (out: Self)
        ensures
            out@ == "configure terminal"@,
    {
        stage(String::from_str("configure terminal"))
    }

    /// Starts the line that enters an interface.
    pub fn interface(self) -> (out: CommandBuilder<Interface, CmdArg0>)
        ensures
            out@ == "interface"@,
    {
        stage(String::from_str("interface"))
    }

    /// The line that enters the management mode of the unit at `interface`.
    pub fn pon_onu_mng(self, interface: &Interface) -> (out: CommandBuilder<Omci, CmdArg0>)
        requires
            interface.id is Some,
        ensures
            out@ == "pon-onu-mng "@ + onu_address(
                interface.slot,
                interface.port,
                interface.id->0,
            ),
    {
        let mut text = join_number("pon-onu-mng ", "gpon_onu-1/", interface.slot as u16);
        text.append("/");
        push_decimal(&mut text, interface.port as u16);
        text.append(":");
        push_decimal(&mut text, interface.id.unwrap() as u16);
        assert(text@ =~= "pon-onu-mng "@ + onu_address(
            interface.slot,
            interface.port,
            interface.id->0,
        ));
        stage(text)
    }
}

} // verus!
