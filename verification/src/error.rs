//! What can go wrong between the driver and the modem.
use atat::Error as ClientError;
use vstd::prelude::*;

verus! {

/// The error of the `atat` client that sends a command and reads the answer.
#[verifier::external_type_specification]
#[verifier::external_body]
pub struct ExClientError(ClientError);

/// Why the driver could not do what it was asked to.
#[derive(Debug)]
pub enum Error {
    /// The data stream was handed out before.
    PppAlreadyTaken,
    /// The message that was waited for did not come in time.
    WaitForUrcError,
    /// The modem could not be switched on.
    PowerOnError,
    /// A command was not accepted.
    AtCommandError {
        /// The name of the command.
        cmd: &'static str,
        /// What the client says of it.
        source: ClientError,
    },
}

/// Turns the client's answer to the command named `cmd` into the driver's: what was
/// received stays as it is, an error gets the name of the command.
pub fn send_cmd<R>(cmd: &'static str, answer: Result<R, ClientError>) -> (r: Result<R, Error>)
    ensures
        match answer {
            Ok(response) => r == Ok::<R, Error>(response),
            Err(source) => r == Err::<R, Error>(Error::AtCommandError { cmd, source }),
        },
{
    match answer {
        Ok(response) => Ok(response),
        Err(source) => Err(Error::AtCommandError { cmd, source }),
    }
}

/// Why reading or writing the data stream failed.
#[derive(Clone, Copy, Debug)]
pub struct PppIoError;

impl PppIoError {
    /// The text of the error.
    pub fn message(self) -> (r: &'static str)
        ensures
            r@ == "ppp io error"@,
    {
        "ppp io error"
    }
}

/// The driver accepts what the client accepts, with the same answer, and refuses what the
/// client refuses, with the client's error and the name that was given.
pub proof fn law_error_names_the_command<R>(
    cmd: &'static str,
    answer: Result<R, ClientError>,
    r: Result<R, Error>,
)
    requires
        call_ensures(send_cmd::<R>, (cmd, answer), r),
    ensures
        answer is Ok <==> r is Ok,
        r matches Ok(response) ==> answer->Ok_0 == response,
        r matches Err(e) ==> e matches Error::AtCommandError { cmd: name, source } && name == cmd
            && answer->Err_0 == source,
{
}

} // verus!
