//! Error codes and the error type shared by the host and plugins.
use vstd::prelude::*;
use vstd::string::*;

use crate::text::{concat2, str_eq};

verus! {

/// Classification of a plugin error.
#[derive(Clone, Copy, PartialEq, Eq, Hash, Debug, Structural)]
pub enum ErrorCode {
    Plugin,
    PermissionDenied,
    NotFound,
    ServiceUnavailable,
    DependencyMissing,
    InvalidArgument,
    Timeout,
    Panic,
    Incompatible,
    Io,
}

/// Errors worth retrying: the condition may pass by itself.
pub open spec fn retriable(code: ErrorCode) -> bool {
    match code {
        ErrorCode::ServiceUnavailable | ErrorCode::DependencyMissing | ErrorCode::Timeout
        | ErrorCode::Panic | ErrorCode::Io => true,
        _ => false,
    }
}

/// The variant name (the `Debug` form of a code).
pub open spec fn code_name(code: ErrorCode) -> Seq<char> {
    match code {
        ErrorCode::Plugin => "Plugin"@,
        ErrorCode::PermissionDenied => "PermissionDenied"@,
        ErrorCode::NotFound => "NotFound"@,
        ErrorCode::ServiceUnavailable => "ServiceUnavailable"@,
        ErrorCode::DependencyMissing => "DependencyMissing"@,
        ErrorCode::InvalidArgument => "InvalidArgument"@,
        ErrorCode::Timeout => "Timeout"@,
        ErrorCode::Panic => "Panic"@,
        ErrorCode::Incompatible => "Incompatible"@,
        ErrorCode::Io => "Io"@,
    }
}

/// The name a code has on the wire (`SCREAMING_SNAKE_CASE`).
pub open spec fn wire_name(code: ErrorCode) -> Seq<char> {
    match code {
        ErrorCode::Plugin => "PLUGIN"@,
        ErrorCode::PermissionDenied => "PERMISSION_DENIED"@,
        ErrorCode::NotFound => "NOT_FOUND"@,
        ErrorCode::ServiceUnavailable => "SERVICE_UNAVAILABLE"@,
        ErrorCode::DependencyMissing => "DEPENDENCY_MISSING"@,
        ErrorCode::InvalidArgument => "INVALID_ARGUMENT"@,
        ErrorCode::Timeout => "TIMEOUT"@,
        ErrorCode::Panic => "PANIC"@,
        ErrorCode::Incompatible => "INCOMPATIBLE"@,
        ErrorCode::Io => "IO"@,
    }
}

/// The code whose wire name is `name`, if any.
pub open spec fn code_of_wire_name(name: Seq<char>) -> Option<ErrorCode> {
    if name == "PLUGIN"@ {
        Some(ErrorCode::Plugin)
    } else if name == "PERMISSION_DENIED"@ {
        Some(ErrorCode::PermissionDenied)
    } else if name == "NOT_FOUND"@ {
        Some(ErrorCode::NotFound)
    } else if name == "SERVICE_UNAVAILABLE"@ {
        Some(ErrorCode::ServiceUnavailable)
    } else if name == "DEPENDENCY_MISSING"@ {
        Some(ErrorCode::DependencyMissing)
    } else if name == "INVALID_ARGUMENT"@ {
        Some(ErrorCode::InvalidArgument)
    } else if name == "TIMEOUT"@ {
        Some(ErrorCode::Timeout)
    } else if name == "PANIC"@ {
        Some(ErrorCode::Panic)
    } else if name == "INCOMPATIBLE"@ {
        Some(ErrorCode::Incompatible)
    } else if name == "IO"@ {
        Some(ErrorCode::Io)
    } else {
        None
    }
}

/// Every code reads back from its wire name.
pub proof fn lemma_wire_name_round_trip(code: ErrorCode)
    ensures
        code_of_wire_name(wire_name(code)) == Some(code),
{
    reveal_strlit("PLUGIN");
    reveal_strlit("PERMISSION_DENIED");
    reveal_strlit("NOT_FOUND");
    reveal_strlit("SERVICE_UNAVAILABLE");
    reveal_strlit("DEPENDENCY_MISSING");
    reveal_strlit("INVALID_ARGUMENT");
    reveal_strlit("TIMEOUT");
    reveal_strlit("PANIC");
    reveal_strlit("INCOMPATIBLE");
    reveal_strlit("IO");
    assert("PLUGIN"@.len() == 6 && "PLUGIN"@[0] == 'P' && "PLUGIN"@[1] == 'L');
    assert("PERMISSION_DENIED"@.len() == 17 && "PERMISSION_DENIED"@[0] == 'P' && "PERMISSION_DENIED"@[1] == 'E');
    assert("NOT_FOUND"@.len() == 9 && "NOT_FOUND"@[0] == 'N' && "NOT_FOUND"@[1] == 'O');
    assert("SERVICE_UNAVAILABLE"@.len() == 19 && "SERVICE_UNAVAILABLE"@[0] == 'S' && "SERVICE_UNAVAILABLE"@[1] == 'E');
    assert("DEPENDENCY_MISSING"@.len() == 18 && "DEPENDENCY_MISSING"@[0] == 'D' && "DEPENDENCY_MISSING"@[1] == 'E');
    assert("INVALID_ARGUMENT"@.len() == 16 && "INVALID_ARGUMENT"@[0] == 'I' && "INVALID_ARGUMENT"@[1] == 'N');
    assert("TIMEOUT"@.len() == 7 && "TIMEOUT"@[0] == 'T' && "TIMEOUT"@[1] == 'I');
    assert("PANIC"@.len() == 5 && "PANIC"@[0] == 'P' && "PANIC"@[1] == 'A');
    assert("INCOMPATIBLE"@.len() == 12 && "INCOMPATIBLE"@[0] == 'I' && "INCOMPATIBLE"@[1] == 'N');
    assert("IO"@.len() == 2 && "IO"@[0] == 'I' && "IO"@[1] == 'O');
}

impl ErrorCode {
    pub fn is_retriable(self) -> (r: bool)
        ensures
            r == retriable(self),
    {
        match self {
            ErrorCode::ServiceUnavailable | ErrorCode::DependencyMissing | ErrorCode::Timeout
            | ErrorCode::Panic | ErrorCode::Io => true,
            _ => false,
        }
    }

    /// The variant name, as `{:?}` prints it.
    pub fn name(self) -> (r: &'static str)
        ensures
            r@ == code_name(self),
    {
        match self {
            ErrorCode::Plugin => "Plugin",
            ErrorCode::PermissionDenied => "PermissionDenied",
            ErrorCode::NotFound => "NotFound",
            ErrorCode::ServiceUnavailable => "ServiceUnavailable",
            ErrorCode::DependencyMissing => "DependencyMissing",
            ErrorCode::InvalidArgument => "InvalidArgument",
            ErrorCode::Timeout => "Timeout",
            ErrorCode::Panic => "Panic",
            ErrorCode::Incompatible => "Incompatible",
            ErrorCode::Io => "Io",
        }
    }

    /// The serialized name of the code.
    pub fn wire_name(self) -> (r: &'static str)
        ensures
            r@ == wire_name(self),
    {
        match self {
            ErrorCode::Plugin => "PLUGIN",
            ErrorCode::PermissionDenied => "PERMISSION_DENIED",
            ErrorCode::NotFound => "NOT_FOUND",
            ErrorCode::ServiceUnavailable => "SERVICE_UNAVAILABLE",
            ErrorCode::DependencyMissing => "DEPENDENCY_MISSING",
            ErrorCode::InvalidArgument => "INVALID_ARGUMENT",
            ErrorCode::Timeout => "TIMEOUT",
            ErrorCode::Panic => "PANIC",
            ErrorCode::Incompatible => "INCOMPATIBLE",
            ErrorCode::Io => "IO",
        }
    }

    /// Reads a serialized code name.
    pub fn from_wire_name(name: &str) -> (r: Option<ErrorCode>)
        ensures
            r == code_of_wire_name(name@),
    {
        if str_eq(name, "PLUGIN") {
            Some(ErrorCode::Plugin)
        } else if str_eq(name, "PERMISSION_DENIED") {
            Some(ErrorCode::PermissionDenied)
        } else if str_eq(name, "NOT_FOUND") {
            Some(ErrorCode::NotFound)
        } else if str_eq(name, "SERVICE_UNAVAILABLE") {
            Some(ErrorCode::ServiceUnavailable)
        } else if str_eq(name, "DEPENDENCY_MISSING") {
            Some(ErrorCode::DependencyMissing)
        } else if str_eq(name, "INVALID_ARGUMENT") {
            Some(ErrorCode::InvalidArgument)
        } else if str_eq(name, "TIMEOUT") {
            Some(ErrorCode::Timeout)
        } else if str_eq(name, "PANIC") {
            Some(ErrorCode::Panic)
        } else if str_eq(name, "INCOMPATIBLE") {
            Some(ErrorCode::Incompatible)
        } else if str_eq(name, "IO") {
            Some(ErrorCode::Io)
        } else {
            None
        }
    }
}

/// What a `PluginError` holds: its code, message and the plugin it concerns.
pub struct ErrorView {
    pub code: ErrorCode,
    pub message: Seq<char>,
    pub plugin: Option<Seq<char>>,
}

/// An error raised by a plugin or by the host on a plugin's behalf.
#[derive(Debug, Clone, PartialEq, Eq)]
pub struct PluginError {
    code: ErrorCode,
    message: String,
    plugin: Option<String>,
}

pub open spec fn opt_view(o: Option<String>) -> Option<Seq<char>> {
    match o {
        Some(s) => Some(s@),
        None => None,
    }
}

/// The `Display` form of an error.
pub open spec fn error_text(e: ErrorView) -> Seq<char> {
    match e.plugin {
        Some(p) => "["@ + code_name(e.code) + "] "@ + e.message + " (plugin="@ + p + ")"@,
        None => "["@ + code_name(e.code) + "] "@ + e.message,
    }
}

impl View for PluginError {
    type V = ErrorView;

    closed spec fn view(&self) -> ErrorView {
        ErrorView { code: self.code, message: self.message@, plugin: opt_view(self.plugin) }
    }
}

/// Shorthand for an error made from a code and a message, with no plugin.
pub open spec fn err_view(code: ErrorCode, message: Seq<char>) -> ErrorView {
    ErrorView { code, message, plugin: None }
}

pub type PluginResult<T> = Result<T, PluginError>;

impl PluginError {
    pub fn new(code: ErrorCode, message: String) -> (r: PluginError)
        ensures
            r@ == err_view(code, message@),
    {
        PluginError { code, message, plugin: None }
    }

    /// The same error, now naming `plugin`.
    pub fn with_plugin(self, plugin: String) -> (r: PluginError)
        ensures
            r@ == (ErrorView { plugin: Some(plugin@), ..self@ }),
    {
        PluginError { code: self.code, message: self.message, plugin: Some(plugin) }
    }

    pub fn code(&self) -> (r: ErrorCode)
        ensures
            r == self@.code,
    {
        self.code
    }

    pub fn message(&self) -> (r: &str)
        ensures
            r@ == self@.message,
    {
        self.message.as_str()
    }

    pub fn plugin_id(&self) -> (r: Option<&str>)
        ensures
            self@.plugin is None ==> r is None,
            self@.plugin matches Some(p) ==> r matches Some(s) && s@ == p,
    {
        match &self.plugin {
            Some(p) => Some(p.as_str()),
            None => None,
        }
    }

    pub fn is_retriable(&self) -> (r: bool)
        ensures
            r == retriable(self@.code),
    {
        self.code.is_retriable()
    }

    pub fn duplicate(&self) -> (r: PluginError)
        ensures
            r@ == self@,
    {
        let plugin = match &self.plugin {
            Some(p) => Some(p.clone()),
            None => None,
        };
        PluginError { code: self.code, message: self.message.clone(), plugin }
    }

    /// The error as `Display` prints it: `[Code] message (plugin=id)`.
    pub fn to_string(&self) -> (r: String)
        ensures
            r@ == error_text(self@),
    {
        let mut s = concat2("[", self.code.name());
        s.append("] ");
        s.append(self.message.as_str());
        match &self.plugin {
            Some(p) => {
                s.append(" (plugin=");
                s.append(p.as_str());
                s.append(")");
            },
            None => {},
        }
        s
    }

    pub fn plugin(message: String) -> (r: PluginError)
        ensures
            r@ == err_view(ErrorCode::Plugin, message@),
    {
        PluginError::new(ErrorCode::Plugin, message)
    }

    pub fn permission_denied(message: String) -> (r: PluginError)
        ensures
            r@ == err_view(ErrorCode::PermissionDenied, message@),
    {
        PluginError::new(ErrorCode::PermissionDenied, message)
    }

    pub fn not_found(message: String) -> (r: PluginError)
        ensures
            r@ == err_view(ErrorCode::NotFound, message@),
    {
        PluginError::new(ErrorCode::NotFound, message)
    }

    pub fn service_unavailable(message: String) -> (r: PluginError)
        ensures
            r@ == err_view(ErrorCode::ServiceUnavailable, message@),
    {
        PluginError::new(ErrorCode::ServiceUnavailable, message)
    }

    pub fn dependency_missing(message: String) -> (r: PluginError)
        ensures
            r@ == err_view(ErrorCode::DependencyMissing, message@),
    {
        PluginError::new(ErrorCode::DependencyMissing, message)
    }

    pub fn invalid_argument(message: String) -> (r: PluginError)
        ensures
            r@ == err_view(ErrorCode::InvalidArgument, message@),
    {
        PluginError::new(ErrorCode::InvalidArgument, message)
    }

    pub fn timeout(message: String) -> (r: PluginError)
        ensures
            r@ == err_view(ErrorCode::Timeout, message@),
    {
        PluginError::new(ErrorCode::Timeout, message)
    }

    pub fn incompatible(message: String) -> (r: PluginError)
        ensures
            r@ == err_view(ErrorCode::Incompatible, message@),
    {
        PluginError::new(ErrorCode::Incompatible, message)
    }

    pub fn io(message: String) -> (r: PluginError)
        ensures
            r@ == err_view(ErrorCode::Io, message@),
    {
        PluginError::new(ErrorCode::Io, message)
    }
}

/// A lookup that may fail for a while made optional: what was found, or
/// nothing when the failure may pass by itself; any other error stays.
pub fn retriable_as_none<T>(r: PluginResult<T>) -> (out: PluginResult<Option<T>>)
    ensures
        match r {
            Ok(v) => out == Ok::<Option<T>, PluginError>(Some(v)),
            Err(e) => if retriable(e@.code) {
                out == Ok::<Option<T>, PluginError>(None)
            } else {
                out == Err::<Option<T>, PluginError>(e)
            },
        },
{
    match r {
        Ok(v) => Ok(Some(v)),
        Err(e) => if e.code().is_retriable() {
            Ok(None)
        } else {
            Err(e)
        },
    }
}

} // verus!
