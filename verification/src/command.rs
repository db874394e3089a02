//! The commands that the modem takes.
use vstd::prelude::*;

verus! {

/// Asks whether the modem is there.
#[derive(Clone, Copy, Debug)]
pub struct AT;

/// Tells the modem not to repeat the commands that it gets.
#[derive(Clone, Copy, Debug)]
pub struct E0;

/// Asks for the head of the HTTP response.
#[derive(Clone, Copy, Debug)]
pub struct HTTPHEAD;

/// Sets the flow control of both sides.
#[derive(Clone, Copy, Debug)]
pub struct IFC {
    pub by_te: u8,
    pub by_dce: u8,
}

/// Dials a number.
#[derive(Clone, Copy, Debug)]
pub struct ATD<'a> {
    pub number: &'a str,
}

/// What an HTTP request does.
#[derive(Clone, Copy, Debug, PartialEq, Eq, Structural)]
pub enum HttpAction {
    Get,
}

/// Makes an HTTP request.
#[derive(Clone, Copy, Debug)]
pub struct HTTPACTION {
    pub action: HttpAction,
}

/// Gives the PIN of the SIM card.
#[derive(Clone, Copy, Debug)]
pub struct CPIN<'a> {
    pub pin: &'a str,
}

/// Sets a parameter of HTTP requests.
#[derive(Clone, Copy, Debug)]
pub struct HTTPPARA<'a> {
    pub param_name: &'a str,
    pub param_value: &'a str,
}

/// Asks whether the modem is registered with a network.
#[derive(Clone, Copy, Debug)]
pub struct CEREGQuery;

/// Asks for a report on the network that the modem uses.
#[derive(Clone, Copy, Debug)]
pub struct CPSIQuery;

/// Sets the speed of the serial line.
#[derive(Clone, Copy, Debug)]
pub struct IPR {
    pub rate: u32,
}

/// Starts the HTTP service.
#[derive(Clone, Copy, Debug)]
pub struct HTTPINIT;

/// Opens the network.
#[derive(Clone, Copy, Debug)]
pub struct NETOPEN;

/// Asks for the state of the SIM card.
#[derive(Clone, Copy, Debug)]
pub struct CPINQuery;

/// Defines the context of a packet data connection.
#[derive(Clone, Copy, Debug)]
pub struct CGDCONT<'a> {
    pub cid: u8,
    pub pdp_type: &'a str,
    pub apn: &'a str,
}

/// A command that is sent to bring up the data connection.
#[derive(Clone, Copy, Debug)]
pub enum Command<'a> {
    AT(AT),
    E0(E0),
    CPINQuery(CPINQuery),
    CPIN(CPIN<'a>),
    CEREGQuery(CEREGQuery),
    CPSIQuery(CPSIQuery),
    CGDCONT(CGDCONT<'a>),
    ATD(ATD<'a>),
}

} // verus!
