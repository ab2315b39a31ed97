//! The binary interface with dynamically loaded plugins: the operation
//! names, the check of a plugin's interface table, and the JSON envelope of
//! every answer.
use vstd::prelude::*;

use crate::error::{
    code_of_wire_name, err_view, lemma_wire_name_round_trip, wire_name, ErrorCode, ErrorView,
    PluginError,
};
use crate::text::{concat2, decimal, decimal_string};

pub mod ops;

verus! {

/// The error part of an answer: a code by its wire name, and a message.
#[derive(Debug, Clone)]
pub struct AbiErrorBody {
    pub code: String,
    pub message: String,
}

/// A plugin's answer to one call: a value, or an error.
#[derive(Debug, Clone)]
pub struct AbiResponse {
    pub ok: bool,
    pub value: Option<serde_json::Value>,
    pub error: Option<AbiErrorBody>,
}

/// The error an answer stands for when it failed: its code read back from
/// its wire name (`PLUGIN` for a name not known), and its message; an
/// answer with no error body stands for an unknown plugin error.
pub open spec fn failure_view(error: Option<AbiErrorBody>) -> ErrorView {
    match error {
        Some(body) => err_view(
            match code_of_wire_name(body.code@) {
                Some(c) => c,
                None => ErrorCode::Plugin,
            },
            body.message@,
        ),
        None => err_view(ErrorCode::Plugin, "unknown plugin error"@),
    }
}

impl AbiResponse {
    pub fn success(value: Option<serde_json::Value>) -> (r: AbiResponse)
        ensures
            r.ok,
            r.value == value,
            r.error is None,
    {
        AbiResponse { ok: true, value, error: None }
    }

    /// The answer carrying `error`: its code by wire name and its message.
    pub fn failure(error: &PluginError) -> (r: AbiResponse)
        ensures
            !r.ok,
            r.value is None,
            r.error matches Some(body) && body.code@ == wire_name(error@.code)
                && body.message@ == error@.message,
    {
        let code = String::from_str(error.code().wire_name());
        let message = String::from_str(error.message());
        AbiResponse { ok: false, value: None, error: Some(AbiErrorBody { code, message }) }
    }

    /// The value of a successful answer, or the error of a failed one.
    pub fn into_result(self) -> (r: Result<Option<serde_json::Value>, PluginError>)
        ensures
            self.ok ==> r == Ok::<Option<serde_json::Value>, PluginError>(self.value),
            !self.ok ==> (r matches Err(e) && e@ == failure_view(self.error)),
    {
        if self.ok {
            Ok(self.value)
        } else {
            let body = match self.error {
                Some(body) => body,
                None => AbiErrorBody {
                    code: String::from_str("PLUGIN"),
                    message: String::from_str("unknown plugin error"),
                },
            };
            proof {
                reveal_strlit("PLUGIN");
            }
            let code = match ErrorCode::from_wire_name(body.code.as_str()) {
                Some(c) => c,
                None => ErrorCode::Plugin,
            };
            Err(PluginError::new(code, body.message))
        }
    }
}

/// An error sent across the interface in a failed answer comes back with
/// the same code and message.
pub proof fn lemma_failure_round_trip(body: AbiErrorBody, code: ErrorCode, message: Seq<char>)
    requires
        body.code@ == wire_name(code),
        body.message@ == message,
    ensures
        failure_view(Some(body)) == err_view(code, message),
{
    lemma_wire_name_round_trip(code);
}

/// Why a plugin's interface table does not fit the host: the ABI version
/// it was built for, then the size of the table.
pub open spec fn abi_mismatch(version: u32, size: usize, expected_size: usize) -> Option<ErrorView> {
    if version != crate::ABI_VERSION {
        Some(
            err_view(
                ErrorCode::Incompatible,
                "plugin abi "@ + decimal(version as nat) + " != host abi "@ + decimal(
                    crate::ABI_VERSION as nat,
                ),
            ),
        )
    } else if size != expected_size {
        Some(
            err_view(
                ErrorCode::Incompatible,
                "plugin abi struct size "@ + decimal(size as nat) + " != host size "@ + decimal(
                    expected_size as nat,
                ) + "; rebuild the plugin"@,
            ),
        )
    } else {
        None
    }
}

/// Checks a plugin's interface table: the ABI version it declares and the
/// size it reports, against the host's table size.
pub fn check_abi(version: u32, size: usize, expected_size: usize) -> (r: Result<(), PluginError>)
    ensures
        r is Ok <==> abi_mismatch(version, size, expected_size) is None,
        r matches Err(e) ==> Some(e@) == abi_mismatch(version, size, expected_size),
{
    if version != crate::ABI_VERSION {
        let mut message = concat2("plugin abi ", decimal_string(version as u64).as_str());
        message.append(" != host abi ");
        message.append(decimal_string(crate::ABI_VERSION as u64).as_str());
        return Err(PluginError::incompatible(message));
    }
    if size != expected_size {
        let mut message = concat2("plugin abi struct size ", decimal_string(size as u64).as_str());
        message.append(" != host size ");
        message.append(decimal_string(expected_size as u64).as_str());
        message.append("; rebuild the plugin");
        return Err(PluginError::incompatible(message));
    }
    Ok(())
}

} // verus!
