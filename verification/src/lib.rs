//! Logic of a driver for SIMCom A76xx modems: the text that the modem sends, the
//! commands that bring up a data connection, and the pumps that move bytes
//! between the serial line and its users.
use vstd::prelude::*;

pub mod bounded;
pub mod bytes;
pub mod command;
pub mod course;
pub mod error;
pub mod http_head;
pub mod length_delimited;
pub mod message;
pub mod modem;
pub mod power;
pub mod transport;

pub use bytes::{parse_len, trim_ascii_whitespace};
pub use command::{
    Command, HttpAction, AT, ATD, CEREGQuery, CGDCONT, CPIN, CPINQuery, CPSIQuery, E0, HTTPACTION,
    HTTPHEAD, HTTPINIT, HTTPPARA, IFC, IPR, NETOPEN,
};
pub use error::{send_cmd, Error, PppIoError};
pub use http_head::{can_read_http_head, parse_http_head, HttpHeadError};
pub use length_delimited::{
    HttpHeadResponse, LengthDelimited, LengthDelimitedError, LengthDelimitedVisitor,
};
pub use message::{
    CPSIResponse, IncorrectMode, ModeVisitor, NoResponse, RawResponse, SystemMode, Urc,
};
pub use modem::{Modem, Step, UrcEvent};
pub use power::{Level, PowerAction, PowerOn, PowerPin, PowerPins};
pub use transport::{
    parse_connect_success, DataMode, Mode, NoMatch, RxEvent, RxPump, RxTurn, TxEvent, TxPump, TxTurn,
    AT_MODE, AT_TX_BUF_SIZE, AT_TX_PIPE_SIZE, DATA_MODE, INGRESS_BUF_SIZE, URC_CAPACITY,
    URC_SUBSCRIBERS,
};

verus! {

} // verus!
