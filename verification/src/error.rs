use vstd::prelude::*;
use vstd::string::StringExecFns;

verus! {

/// All that can go wrong in the host.
#[derive(Debug, Clone, PartialEq, Eq)]
pub enum Error {
    /// No extension has the id that was given, or none provides the hook
    /// that was called.
    NotFound,
    /// The source of an installation is malformed.
    InvalidSpecifier,
    /// The binary is not a valid module. The text says why.
    Validation(String),
    /// The metadata of an extension could not be read.
    MetadataParsing,
    /// The exports of an extension could not be read.
    ExportsParsing,
    /// The host was built without a way to load modules.
    ModuleLoadingDisabled,
    /// An extension asked for what it has no permission for.
    PermissionDenied,
    /// The extension stopped with a trap while it was set up.
    HookInitialization(String),
    /// The extension stopped with a trap while the hook ran.
    HookExecution(String),
    /// A request or an answer is not the JSON that was expected.
    Json(String),
    /// Bytes are not valid UTF-8.
    Utf8,
    /// The name is no hook of this host.
    UnknownHook(String),
    /// Reading or writing failed.
    Io(String),
    /// Anything else.
    Other(String),
}

impl Error {
    /// The text that describes the error, for all but the variants that
    /// carry a text of their own.
    pub open spec fn spec_fixed_text(&self) -> Seq<char> {
        match self {
            Error::NotFound => "Extension not found"@,
            Error::InvalidSpecifier => "Malformed specifier"@,
            Error::MetadataParsing => "Failed to parse extensions metadata"@,
            Error::ExportsParsing => "Failed to parse extensions exports"@,
            Error::ModuleLoadingDisabled => "Module loading is disabled"@,
            Error::PermissionDenied => "Permission denied"@,
            Error::HookInitialization(_) => "Failed to initialize hook"@,
            Error::HookExecution(_) => "Failed to execute hook"@,
            Error::Utf8 => "invalid utf-8 sequence"@,
            _ => Seq::empty(),
        }
    }

    /// The text that describes the error.
    pub open spec fn spec_text(&self) -> Seq<char> {
        match self {
            Error::Validation(why) => "Invalid module: "@ + why@,
            Error::Json(why) => "JSON: "@ + why@,
            Error::UnknownHook(name) => "Unknown hook: "@ + name@,
            Error::Io(why) => why@,
            Error::Other(why) => why@,
            _ => self.spec_fixed_text(),
        }
    }

    /// The text that describes the error.
    pub fn text(&self) -> (s: String)
        ensures
            s@ == self.spec_text(),
    {
        match self {
            Error::NotFound => String::from_str("Extension not found"),
            Error::InvalidSpecifier => String::from_str("Malformed specifier"),
            Error::Validation(why) => String::from_str("Invalid module: ").concat(why.as_str()),
            Error::MetadataParsing => String::from_str("Failed to parse extensions metadata"),
            Error::ExportsParsing => String::from_str("Failed to parse extensions exports"),
            Error::ModuleLoadingDisabled => String::from_str("Module loading is disabled"),
            Error::PermissionDenied => String::from_str("Permission denied"),
            Error::HookInitialization(_) => String::from_str("Failed to initialize hook"),
            Error::HookExecution(_) => String::from_str("Failed to execute hook"),
            Error::Json(why) => String::from_str("JSON: ").concat(why.as_str()),
            Error::Utf8 => String::from_str("invalid utf-8 sequence"),
            Error::UnknownHook(name) => String::from_str("Unknown hook: ").concat(name.as_str()),
            Error::Io(why) => why.clone(),
            Error::Other(why) => why.clone(),
        }
    }
}

} // verus!
