//! What the modem sends: answers to commands, and messages that nobody asked for.
use vstd::prelude::*;

use crate::bounded;
use crate::bytes;
use crate::length_delimited::HttpHeadResponse;

verus! {

/// An answer that says no more than that the command was accepted.
#[derive(Clone, Copy, Debug)]
pub struct NoResponse;

/// An answer or a message that is kept as it was sent.
#[derive(Debug)]
pub struct RawResponse {
    pub resp: heapless::String<256>,
}

impl RawResponse {
    /// Both hold the same text.
    pub open spec fn same(self, other: RawResponse) -> bool {
        bounded::same_text(self.resp, other.resp)
    }
}

impl Clone for RawResponse {
    fn clone(&self) -> (r: Self)
        ensures
            r.same(*self),
    {
        RawResponse { resp: bounded::clone_string(&self.resp) }
    }
}

/// The kind of network that the modem uses.
#[derive(Clone, Copy, Debug, PartialEq, Eq, Structural)]
pub enum SystemMode {
    NoService,
    GSM,
    WCDMA,
    LTE,
}

impl SystemMode {
    /// What the modem calls the mode.
    pub open spec fn text(self) -> Seq<char> {
        match self {
            SystemMode::NoService => "NO SERVICE"@,
            SystemMode::GSM => "GSM"@,
            SystemMode::WCDMA => "WCDMA"@,
            SystemMode::LTE => "LTE"@,
        }
    }
}

/// The mode that `v` names.
pub open spec fn named_mode(v: Seq<u8>) -> Option<SystemMode> {
    if v == bytes::ascii(SystemMode::NoService.text()) {
        Some(SystemMode::NoService)
    } else if v == bytes::ascii(SystemMode::GSM.text()) {
        Some(SystemMode::GSM)
    } else if v == bytes::ascii(SystemMode::WCDMA.text()) {
        Some(SystemMode::WCDMA)
    } else if v == bytes::ascii(SystemMode::LTE.text()) {
        Some(SystemMode::LTE)
    } else {
        None
    }
}

/// The bytes name no system mode.
#[derive(Clone, Copy, Debug, PartialEq, Eq, Structural)]
pub struct IncorrectMode;

impl IncorrectMode {
    /// The text of the error.
    pub fn message(self) -> (r: &'static str)
        ensures
            r@ == "incorrect mode"@,
    {
        "incorrect mode"
    }
}

/// Reads the name of a system mode.
#[derive(Clone, Copy, Debug)]
pub struct ModeVisitor;

impl ModeVisitor {
    /// What the visitor reads.
    pub fn expecting(&self) -> (r: &'static str)
        ensures
            r@ == "system mode string"@,
    {
        "system mode string"
    }

    /// Reads the mode that `v` names.
    pub fn visit_bytes(self, v: &[u8]) -> (r: Result<SystemMode, IncorrectMode>)
        ensures
            match r {
                Ok(mode) => named_mode(v@) == Some(mode),
                Err(IncorrectMode) => named_mode(v@) is None,
            },
    {
        proof {
            reveal_strlit("NO SERVICE");
            reveal_strlit("GSM");
            reveal_strlit("WCDMA");
            reveal_strlit("LTE");
        }
        if bytes::equals(v, "NO SERVICE") {
            Ok(SystemMode::NoService)
        } else if bytes::equals(v, "GSM") {
            Ok(SystemMode::GSM)
        } else if bytes::equals(v, "WCDMA") {
            Ok(SystemMode::WCDMA)
        } else if bytes::equals(v, "LTE") {
            Ok(SystemMode::LTE)
        } else {
            Err(IncorrectMode)
        }
    }
}

/// The name of a mode is read as that mode, and as no other.
pub proof fn law_mode_is_read_back(mode: SystemMode)
    ensures
        named_mode(bytes::ascii(mode.text())) == Some(mode),
{
    reveal_strlit("NO SERVICE");
    reveal_strlit("GSM");
    reveal_strlit("WCDMA");
    reveal_strlit("LTE");
    let name = bytes::ascii(mode.text());
    assert(name[0] == mode.text()[0] as u8);
    assert(bytes::ascii(SystemMode::GSM.text())[0] == 'G' as u8);
    assert(bytes::ascii(SystemMode::LTE.text())[0] == 'L' as u8);
}

/// The report on the network that the modem uses.
#[derive(Debug)]
pub struct CPSIResponse {
    pub system_mode: SystemMode,
    pub operation_mode: heapless::String<256>,
}

impl CPSIResponse {
    /// Both report the same.
    pub open spec fn same(self, other: CPSIResponse) -> bool {
        &&& self.system_mode == other.system_mode
        &&& bounded::same_text(self.operation_mode, other.operation_mode)
    }
}

impl Clone for CPSIResponse {
    fn clone(&self) -> (r: Self)
        ensures
            r.same(*self),
    {
        CPSIResponse {
            system_mode: self.system_mode,
            operation_mode: bounded::clone_string(&self.operation_mode),
        }
    }
}

/// A message that the modem sends on its own account.
#[derive(Debug)]
pub enum Urc {
    ATREADY(RawResponse),
    CPIN(RawResponse),
    CEREG(RawResponse),
    CGEV(RawResponse),
    NETOPEN(RawResponse),
    HTTPACTION(RawResponse),
    CPSI(CPSIResponse),
    HTTPHEAD(HttpHeadResponse),
    SMSDONE(RawResponse),
}

impl Urc {
    /// Both are the same message.
    pub open spec fn same(self, other: Urc) -> bool {
        match (self, other) {
            (Urc::ATREADY(a), Urc::ATREADY(b)) => a.same(b),
            (Urc::CPIN(a), Urc::CPIN(b)) => a.same(b),
            (Urc::CEREG(a), Urc::CEREG(b)) => a.same(b),
            (Urc::CGEV(a), Urc::CGEV(b)) => a.same(b),
            (Urc::NETOPEN(a), Urc::NETOPEN(b)) => a.same(b),
            (Urc::HTTPACTION(a), Urc::HTTPACTION(b)) => a.same(b),
            (Urc::CPSI(a), Urc::CPSI(b)) => a.same(b),
            (Urc::HTTPHEAD(a), Urc::HTTPHEAD(b)) => a.same(b),
            (Urc::SMSDONE(a), Urc::SMSDONE(b)) => a.same(b),
            _ => false,
        }
    }
}

impl Clone for Urc {
    fn clone(&self) -> (r: Self)
        ensures
            r.same(*self),
    {
        match self {
            Urc::ATREADY(m) => Urc::ATREADY(m.clone()),
            Urc::CPIN(m) => Urc::CPIN(m.clone()),
            Urc::CEREG(m) => Urc::CEREG(m.clone()),
            Urc::CGEV(m) => Urc::CGEV(m.clone()),
            Urc::NETOPEN(m) => Urc::NETOPEN(m.clone()),
            Urc::HTTPACTION(m) => Urc::HTTPACTION(m.clone()),
            Urc::CPSI(m) => Urc::CPSI(m.clone()),
            Urc::HTTPHEAD(m) => Urc::HTTPHEAD(m.clone()),
            Urc::SMSDONE(m) => Urc::SMSDONE(m.clone()),
        }
    }
}

/// The four names are read as their modes, letter by letter, and no other bytes are read as
/// a mode.
pub proof fn law_only_four_names_are_modes(
    visitor: ModeVisitor,
    v: &[u8],
    r: Result<SystemMode, IncorrectMode>,
)
    requires
        call_ensures(ModeVisitor::visit_bytes, (visitor, v), r),
    ensures
        r == Ok::<_, IncorrectMode>(SystemMode::NoService) <==> v@ == seq![
            78u8,
            79,
            32,
            83,
            69,
            82,
            86,
            73,
            67,
            69,
        ],
        r == Ok::<_, IncorrectMode>(SystemMode::GSM) <==> v@ == seq![71u8, 83, 77],
        r == Ok::<_, IncorrectMode>(SystemMode::WCDMA) <==> v@ == seq![87u8, 67, 68, 77, 65],
        r == Ok::<_, IncorrectMode>(SystemMode::LTE) <==> v@ == seq![76u8, 84, 69],
{
    reveal_strlit("NO SERVICE");
    reveal_strlit("GSM");
    reveal_strlit("WCDMA");
    reveal_strlit("LTE");
    let none = seq![78u8, 79, 32, 83, 69, 82, 86, 73, 67, 69];
    let gsm = seq![71u8, 83, 77];
    let wcdma = seq![87u8, 67, 68, 77, 65];
    let lte = seq![76u8, 84, 69];
    assert(bytes::ascii("NO SERVICE"@) =~= none);
    assert(bytes::ascii("GSM"@) =~= gsm);
    assert(bytes::ascii("WCDMA"@) =~= wcdma);
    assert(bytes::ascii("LTE"@) =~= lte);
    assert(gsm[0] != lte[0]);
}

/// A copy of a raw answer holds the text of the answer.
pub proof fn law_copy_of_raw(m: RawResponse, r: RawResponse)
    requires
        call_ensures(RawResponse::clone, (&m,), r),
    ensures
        bounded::same_text(r.resp, m.resp),
{
}

/// A copy of a report tells the same mode, and its text compares in the same way.
pub proof fn law_copy_of_report(m: CPSIResponse, r: CPSIResponse)
    requires
        call_ensures(CPSIResponse::clone, (&m,), r),
    ensures
        r.system_mode == m.system_mode,
        bounded::same_text(r.operation_mode, m.operation_mode),
{
}

/// A copy of a message is a message of the same name, and tells the same.
pub proof fn law_copy_of_message(m: Urc, r: Urc)
    requires
        call_ensures(Urc::clone, (&m,), r),
    ensures
        m matches Urc::ATREADY(a) ==> r matches Urc::ATREADY(b) && bounded::same_text(
            b.resp,
            a.resp,
        ),
        m matches Urc::CPIN(a) ==> r matches Urc::CPIN(b) && bounded::same_text(b.resp, a.resp),
        m matches Urc::CEREG(a) ==> r matches Urc::CEREG(b) && bounded::same_text(b.resp, a.resp),
        m matches Urc::CGEV(a) ==> r matches Urc::CGEV(b) && bounded::same_text(b.resp, a.resp),
        m matches Urc::NETOPEN(a) ==> r matches Urc::NETOPEN(b) && bounded::same_text(
            b.resp,
            a.resp,
        ),
        m matches Urc::HTTPACTION(a) ==> r matches Urc::HTTPACTION(b) && bounded::same_text(
            b.resp,
            a.resp,
        ),
        m matches Urc::SMSDONE(a) ==> r matches Urc::SMSDONE(b) && bounded::same_text(
            b.resp,
            a.resp,
        ),
        m matches Urc::CPSI(a) ==> r matches Urc::CPSI(b) && b.system_mode == a.system_mode
            && bounded::same_text(b.operation_mode, a.operation_mode),
        m matches Urc::HTTPHEAD(a) ==> r matches Urc::HTTPHEAD(b) && b.body.len == a.body.len
            && forall|s: Seq<u8>|
            #![trigger bounded::holds(b.body.bytes, s)]
            s.len() == a.body.len ==> bounded::holds(b.body.bytes, s) == bounded::holds(
                a.body.bytes,
                s,
            ),
{
    if let Urc::HTTPHEAD(a) = m {
        if let Urc::HTTPHEAD(b) = r {
            assert forall|s: Seq<u8>|
                #![trigger bounded::holds(b.body.bytes, s)]
                s.len() == a.body.len implies bounded::holds(b.body.bytes, s) == bounded::holds(
                a.body.bytes,
                s,
            ) by {
                assert(b.body.has_payload(s) == a.body.has_payload(s));
            }
        }
    }
}

} // verus!
