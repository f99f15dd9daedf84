//! What can go wrong while declarations are discovered.

use vstd::prelude::*;
use crate::annotations::{verb_name, HttpMethod};
use crate::guards::{role_tag, GuardType};

verus! {

/// Why a declaration's guard role could not be read.
#[derive(Debug, PartialEq, Eq)]
pub enum RoleError {
    /// The declaration carries no role annotation.
    Missing,
    /// The annotation's key is not `guard_type`.
    ExpectedKey,
    /// The annotation is not of the form `key = "value"`.
    Malformed,
    /// The value names none of the three roles.
    Unknown { value: String },
}

/// A role error, as contracts speak of it.
pub enum RoleErrorView {
    Missing,
    ExpectedKey,
    Malformed,
    Unknown { value: Seq<char> },
}

impl View for RoleError {
    type V = RoleErrorView;

    open spec fn view(&self) -> RoleErrorView {
        match self {
            RoleError::Missing => RoleErrorView::Missing,
            RoleError::ExpectedKey => RoleErrorView::ExpectedKey,
            RoleError::Malformed => RoleErrorView::Malformed,
            RoleError::Unknown { value } => RoleErrorView::Unknown { value: value@ },
        }
    }
}

/// The calling convention a handler or guard declaration fails to follow.
#[derive(Debug, Clone, Copy, PartialEq, Eq, Structural)]
pub enum Fault {
    NotAsync,
    NotPublic,
}

/// What a declaration fails in. Each failure names the declaration.
#[derive(Debug, PartialEq, Eq)]
pub enum DeclarationError {
    /// A guard declaration without a usable role annotation.
    GuardRole { declaration: String, reason: RoleError },
    /// A route handler that is not a public suspending function.
    Handler { declaration: String, method: HttpMethod, path: String, fault: Fault },
    /// A guard that is not a public suspending function.
    Guard { declaration: String, role: GuardType, fault: Fault },
    /// A verb annotation whose argument is not a single string literal.
    RoutePath { declaration: String, method: HttpMethod },
    /// A guard-reference annotation with an entry that is neither a name
    /// nor a name with parameters.
    GuardList { declaration: String, entry: String },
}

/// A declaration's failure, as contracts speak of it.
pub enum DeclarationErrorView {
    GuardRole { declaration: Seq<char>, reason: RoleErrorView },
    Handler { declaration: Seq<char>, method: HttpMethod, path: Seq<char>, fault: Fault },
    Guard { declaration: Seq<char>, role: GuardType, fault: Fault },
    RoutePath { declaration: Seq<char>, method: HttpMethod },
    GuardList { declaration: Seq<char>, entry: Seq<char> },
}

impl View for DeclarationError {
    type V = DeclarationErrorView;

    open spec fn view(&self) -> DeclarationErrorView {
        match self {
            DeclarationError::GuardRole { declaration, reason } => {
                DeclarationErrorView::GuardRole { declaration: declaration@, reason: reason@ }
            },
            DeclarationError::Handler { declaration, method, path, fault } => {
                DeclarationErrorView::Handler {
                    declaration: declaration@,
                    method: *method,
                    path: path@,
                    fault: *fault,
                }
            },
            DeclarationError::Guard { declaration, role, fault } => DeclarationErrorView::Guard {
                declaration: declaration@,
                role: *role,
                fault: *fault,
            },
            DeclarationError::RoutePath { declaration, method } => {
                DeclarationErrorView::RoutePath { declaration: declaration@, method: *method }
            },
            DeclarationError::GuardList { declaration, entry } => {
                DeclarationErrorView::GuardList { declaration: declaration@, entry: entry@ }
            },
        }
    }
}

/// A failure of discovery. Every one of them aborts the run.
#[derive(Debug, PartialEq, Eq)]
pub enum DiscoveryError {
    /// A declaration's file does not lie under the root it was looked up in.
    PathOutsideRoot { path: String },
    /// The root directory to walk does not exist.
    MissingDirectory { path: String },
    /// A source file is not well-formed.
    Syntax { file: String, message: String },
    /// A declaration in `file` fails in what is asked of it.
    Declaration { file: String, error: DeclarationError },
}

/// A failure of discovery, as contracts speak of it.
pub enum DiscoveryErrorView {
    PathOutsideRoot { path: Seq<char> },
    MissingDirectory { path: Seq<char> },
    Syntax { file: Seq<char>, message: Seq<char> },
    Declaration { file: Seq<char>, error: DeclarationErrorView },
}

impl View for DiscoveryError {
    type V = DiscoveryErrorView;

    open spec fn view(&self) -> DiscoveryErrorView {
        match self {
            DiscoveryError::PathOutsideRoot { path } => DiscoveryErrorView::PathOutsideRoot {
                path: path@,
            },
            DiscoveryError::MissingDirectory { path } => DiscoveryErrorView::MissingDirectory {
                path: path@,
            },
            DiscoveryError::Syntax { file, message } => DiscoveryErrorView::Syntax {
                file: file@,
                message: message@,
            },
            DiscoveryError::Declaration { file, error } => DiscoveryErrorView::Declaration {
                file: file@,
                error: error@,
            },
        }
    }
}

impl Clone for RoleError {
    fn clone(&self) -> (r: Self)
        ensures
            r@ == self@,
    {
        match self {
            RoleError::Missing => RoleError::Missing,
            RoleError::ExpectedKey => RoleError::ExpectedKey,
            RoleError::Malformed => RoleError::Malformed,
            RoleError::Unknown { value } => RoleError::Unknown { value: value.clone() },
        }
    }
}

impl Clone for DeclarationError {
    fn clone(&self) -> (r: Self)
        ensures
            r@ == self@,
    {
        match self {
            DeclarationError::GuardRole { declaration, reason } => DeclarationError::GuardRole {
                declaration: declaration.clone(),
                reason: reason.clone(),
            },
            DeclarationError::Handler { declaration, method, path, fault } => {
                DeclarationError::Handler {
                    declaration: declaration.clone(),
                    method: *method,
                    path: path.clone(),
                    fault: *fault,
                }
            },
            DeclarationError::Guard { declaration, role, fault } => DeclarationError::Guard {
                declaration: declaration.clone(),
                role: *role,
                fault: *fault,
            },
            DeclarationError::RoutePath { declaration, method } => DeclarationError::RoutePath {
                declaration: declaration.clone(),
                method: *method,
            },
            DeclarationError::GuardList { declaration, entry } => DeclarationError::GuardList {
                declaration: declaration.clone(),
                entry: entry.clone(),
            },
        }
    }
}

impl Clone for DiscoveryError {
    fn clone(&self) -> (r: Self)
        ensures
            r@ == self@,
    {
        match self {
            DiscoveryError::PathOutsideRoot { path } => DiscoveryError::PathOutsideRoot {
                path: path.clone(),
            },
            DiscoveryError::MissingDirectory { path } => DiscoveryError::MissingDirectory {
                path: path.clone(),
            },
            DiscoveryError::Syntax { file, message } => DiscoveryError::Syntax {
                file: file.clone(),
                message: message.clone(),
            },
            DiscoveryError::Declaration { file, error } => DiscoveryError::Declaration {
                file: file.clone(),
                error: error.clone(),
            },
        }
    }
}

/// What a role error says.
pub open spec fn role_error_text(e: RoleErrorView) -> Seq<char> {
    match e {
        RoleErrorView::Missing => "Missing #[register_guard(guard_type = \"...\")] attribute"@,
        RoleErrorView::ExpectedKey => "Expected 'guard_type'"@,
        RoleErrorView::Malformed => "Expected guard_type = \"...\""@,
        RoleErrorView::Unknown { value } => "Unknown guard type: '"@ + value
            + "'. Expected 'fn', 'fn_with_state', or 'layer'"@,
    }
}

/// What is asked of a declaration that has `fault`.
pub open spec fn fault_text(fault: Fault) -> Seq<char> {
    match fault {
        Fault::NotAsync => "' must be async.\nHelp: Add 'async' keyword before 'fn':\n#["@,
        Fault::NotPublic => "' must be public.\nHelp: Add 'pub' keyword:\n#["@,
    }
}

/// What a declaration's failure says: it names the declaration and shows
/// the form it has to take.
pub open spec fn declaration_error_text(e: DeclarationErrorView) -> Seq<char> {
    match e {
        DeclarationErrorView::GuardRole { declaration, reason } => "Guard '"@ + declaration
            + "': "@ + role_error_text(reason),
        DeclarationErrorView::Handler { declaration, method, path, fault } => "Route handler '"@
            + declaration + fault_text(fault) + verb_name(method) + "(\""@ + path
            + "\")]\npub async fn "@ + declaration + "(...) { ... }"@,
        DeclarationErrorView::Guard { declaration, role, fault } => "Route handler '"@
            + declaration + fault_text(fault) + "register_guard(\"guard_type = "@ + role_tag(role)
            + "\")]\npub async fn "@ + declaration + "(...) { ... }"@,
        DeclarationErrorView::RoutePath { declaration, method } => "Route handler '"@
            + declaration + "': #["@ + verb_name(method) + "(...)] takes one string literal"@,
        DeclarationErrorView::GuardList { declaration, entry } => "Route handler '"@
            + declaration + "': #[guards(...)] takes names and names with parameters, not '"@
            + entry + "'"@,
    }
}

/// What a failure says. A declaration's failure is reported with the file
/// in which the declaration stands.
pub open spec fn error_text(e: DiscoveryErrorView) -> Seq<char> {
    match e {
        DiscoveryErrorView::PathOutsideRoot { path } => "path must be under the root directory: "@
            + path,
        DiscoveryErrorView::MissingDirectory { path } => path
            + " dir doesn't exist \u{2014} skipping guards"@,
        DiscoveryErrorView::Syntax { file, message } => file + ": "@ + message,
        DiscoveryErrorView::Declaration { file, error } => file + ": "@ + declaration_error_text(
            error,
        ),
    }
}

impl RoleError {
    /// What this error says.
    pub fn message(&self) -> (r: String)
        ensures
            r@ == role_error_text(self@),
    {
        match self {
            RoleError::Missing => "Missing #[register_guard(guard_type = \"...\")] attribute"
                .to_owned(),
            RoleError::ExpectedKey => "Expected 'guard_type'".to_owned(),
            RoleError::Malformed => "Expected guard_type = \"...\"".to_owned(),
            RoleError::Unknown { value } => {
                let mut out = "Unknown guard type: '".to_owned();
                out.append(value.as_str());
                out.append("'. Expected 'fn', 'fn_with_state', or 'layer'");
                out
            },
        }
    }
}

impl Fault {
    /// What is asked of a declaration that has this fault.
    fn demand(&self) -> (r: &'static str)
        ensures
            r@ == fault_text(*self),
    {
        match self {
            Fault::NotAsync => "' must be async.\nHelp: Add 'async' keyword before 'fn':\n#[",
            Fault::NotPublic => "' must be public.\nHelp: Add 'pub' keyword:\n#[",
        }
    }
}

impl DeclarationError {
    /// What this failure says.
    pub fn message(&self) -> (r: String)
        ensures
            r@ == declaration_error_text(self@),
    {
        match self {
            DeclarationError::GuardRole { declaration, reason } => {
                let why = reason.message();
                let mut out = "Guard '".to_owned();
                out.append(declaration.as_str());
                out.append("': ");
                out.append(why.as_str());
                out
            },
            DeclarationError::Handler { declaration, method, path, fault } => {
                let mut out = "Route handler '".to_owned();
                out.append(declaration.as_str());
                out.append(fault.demand());
                out.append(method.as_str());
                out.append("(\"");
                out.append(path.as_str());
                out.append("\")]\npub async fn ");
                out.append(declaration.as_str());
                out.append("(...) { ... }");
                out
            },
            DeclarationError::Guard { declaration, role, fault } => {
                let mut out = "Route handler '".to_owned();
                out.append(declaration.as_str());
                out.append(fault.demand());
                out.append("register_guard(\"guard_type = ");
                out.append(role.as_str());
                out.append("\")]\npub async fn ");
                out.append(declaration.as_str());
                out.append("(...) { ... }");
                out
            },
            DeclarationError::RoutePath { declaration, method } => {
                let mut out = "Route handler '".to_owned();
                out.append(declaration.as_str());
                out.append("': #[");
                out.append(method.as_str());
                out.append("(...)] takes one string literal");
                out
            },
            DeclarationError::GuardList { declaration, entry } => {
                let mut out = "Route handler '".to_owned();
                out.append(declaration.as_str());
                out.append("': #[guards(...)] takes names and names with parameters, not '");
                out.append(entry.as_str());
                out.append("'");
                out
            },
        }
    }
}

impl DiscoveryError {
    /// What this failure says.
    pub fn message(&self) -> (r: String)
        ensures
            r@ == error_text(self@),
    {
        match self {
            DiscoveryError::PathOutsideRoot { path } => {
                let mut out = "path must be under the root directory: ".to_owned();
                out.append(path.as_str());
                out
            },
            DiscoveryError::MissingDirectory { path } => {
                let mut out = path.clone();
                out.append(" dir doesn't exist \u{2014} skipping guards");
                out
            },
            DiscoveryError::Syntax { file, message } => {
                let mut out = file.clone();
                out.append(": ");
                out.append(message.as_str());
                out
            },
            DiscoveryError::Declaration { file, error } => {
                let what = error.message();
                let mut out = file.clone();
                out.append(": ");
                out.append(what.as_str());
                out
            },
        }
    }
}

} // verus!
