//! The errors the application reports to its front end, and how a plugin
//! error is classified among them.
use vstd::prelude::*;
use vstd::string::*;

use crate::error::{error_text, ErrorCode, PluginError};
use crate::text::concat3;

verus! {

/// An error as the front end is told it: its kind and its message.
#[derive(Debug, Clone, PartialEq, Eq)]
pub enum AppError {
    Database(String),
    Io(String),
    Migration(String),
    Service(String),
    Command(String),
    Platform(String),
    Domain(String),
    Plugin(String),
    PluginPermissionDenied { plugin_id: String, permission: String },
}

/// The kind of error the front end is told of a plugin error with code `c`:
/// a refused permission; I/O, time-outs and unavailable services as I/O
/// errors; unknown plugins, missing dependencies and incompatible ones as
/// command errors; anything else as a plugin error.
pub open spec fn kind_for(c: ErrorCode) -> Seq<char> {
    match c {
        ErrorCode::PermissionDenied => "pluginPermissionDenied"@,
        ErrorCode::Io | ErrorCode::Timeout | ErrorCode::ServiceUnavailable => "io"@,
        ErrorCode::NotFound | ErrorCode::DependencyMissing | ErrorCode::Incompatible => "command"@,
        _ => "plugin"@,
    }
}

/// The message of an error of one of the kinds that carry a single text.
pub open spec fn message_of(e: AppError) -> Option<Seq<char>> {
    match e {
        AppError::Database(m) => Some(m@),
        AppError::Io(m) => Some(m@),
        AppError::Migration(m) => Some(m@),
        AppError::Service(m) => Some(m@),
        AppError::Command(m) => Some(m@),
        AppError::Platform(m) => Some(m@),
        AppError::Domain(m) => Some(m@),
        AppError::Plugin(m) => Some(m@),
        AppError::PluginPermissionDenied { .. } => None,
    }
}

/// The kind of an application error, as the front end reads it.
pub open spec fn kind_of(e: AppError) -> Seq<char> {
    match e {
        AppError::Database(_) => "database"@,
        AppError::Io(_) => "io"@,
        AppError::Migration(_) => "migration"@,
        AppError::Service(_) => "service"@,
        AppError::Command(_) => "command"@,
        AppError::Platform(_) => "platform"@,
        AppError::Domain(_) => "domain"@,
        AppError::Plugin(_) => "plugin"@,
        AppError::PluginPermissionDenied { .. } => "pluginPermissionDenied"@,
    }
}

/// The text of an application error: its message, or for a refused
/// permission the plugin and the permission.
pub open spec fn app_error_text(e: AppError) -> Seq<char> {
    match e {
        AppError::Database(m) => m@,
        AppError::Io(m) => m@,
        AppError::Migration(m) => m@,
        AppError::Service(m) => m@,
        AppError::Command(m) => m@,
        AppError::Platform(m) => m@,
        AppError::Domain(m) => m@,
        AppError::Plugin(m) => m@,
        AppError::PluginPermissionDenied { plugin_id, permission } => "Plugin '"@ + plugin_id@
            + "' denied permission "@ + permission@,
    }
}

impl AppError {
    /// What the front end is told of `error`.
    pub fn from_plugin_error(error: &PluginError) -> (r: AppError)
        ensures
            kind_of(r) == kind_for(error@.code),
            error@.code == ErrorCode::PermissionDenied ==> (r matches AppError::PluginPermissionDenied {
                plugin_id,
                permission,
            } && plugin_id@ == (match error@.plugin {
                Some(p) => p,
                None => "<host>"@,
            }) && permission@ == error@.message),
            error@.code != ErrorCode::PermissionDenied ==> message_of(r) == Some(error_text(error@)),
    {
        match error.code() {
            ErrorCode::PermissionDenied => {
                let plugin_id = match error.plugin_id() {
                    Some(p) => String::from_str(p),
                    None => String::from_str("<host>"),
                };
                AppError::PluginPermissionDenied {
                    plugin_id,
                    permission: String::from_str(error.message()),
                }
            },
            ErrorCode::Io | ErrorCode::Timeout | ErrorCode::ServiceUnavailable => AppError::Io(
                error.to_string(),
            ),
            ErrorCode::NotFound | ErrorCode::DependencyMissing | ErrorCode::Incompatible => {
                AppError::Command(error.to_string())
            },
            _ => AppError::Plugin(error.to_string()),
        }
    }

    /// The error's text, as it is displayed.
    pub fn to_string(&self) -> (r: String)
        ensures
            r@ == app_error_text(*self),
    {
        match self {
            AppError::Database(m) | AppError::Io(m) | AppError::Migration(m) | AppError::Service(m)
            | AppError::Command(m) | AppError::Platform(m) | AppError::Domain(m)
            | AppError::Plugin(m) => m.clone(),
            AppError::PluginPermissionDenied { plugin_id, permission } => {
                let head = concat3("Plugin '", plugin_id.as_str(), "' denied permission ");
                head.concat(permission.as_str())
            },
        }
    }

    /// The error's kind, as the front end reads it.
    pub fn kind(&self) -> (r: &'static str)
        ensures
            r@ == kind_of(*self),
    {
        match self {
            AppError::Database(_) => "database",
            AppError::Io(_) => "io",
            AppError::Migration(_) => "migration",
            AppError::Service(_) => "service",
            AppError::Command(_) => "command",
            AppError::Platform(_) => "platform",
            AppError::Domain(_) => "domain",
            AppError::Plugin(_) => "plugin",
            AppError::PluginPermissionDenied { .. } => "pluginPermissionDenied",
        }
    }
}

} // verus!
