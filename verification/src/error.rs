//! Why a description cannot be compiled.

use crate::dsl::parser::{location_of, syntax_message, ParseError};
use vstd::prelude::*;
use vstd::string::StringExecFns;
use vstd::string::StringSliceAdditionalSpecFns;

verus! {

/// What a name was expected to name.
#[derive(Clone, Copy, Debug, PartialEq, Eq, Structural)]
pub enum Role {
    Joint,
    PivotJoint,
    MovingJoint,
    Link,
}

/// Why a text is not compiled: it is no description, or it uses a name that
/// it does not declare.
#[derive(Debug)]
pub enum CompileError {
    Syntax(ParseError),
    NotFound { role: Role, name: String },
}

impl Role {
    pub open spec fn spec_label(&self) -> Seq<char> {
        match self {
            Role::Joint => "Joint"@,
            Role::PivotJoint => "Pivot joint"@,
            Role::MovingJoint => "Moving joint"@,
            Role::Link => "Link"@,
        }
    }

    /// The words for the role, as a message begins with them.
    pub fn label(&self) -> (text: &'static str)
        ensures
            text@ == self.spec_label(),
    {
        match self {
            Role::Joint => "Joint",
            Role::PivotJoint => "Pivot joint",
            Role::MovingJoint => "Moving joint",
            Role::Link => "Link",
        }
    }
}

/// The message for a name that is not declared.
pub open spec fn not_found_message(role: Role, name: Seq<char>) -> Seq<char> {
    role.spec_label() + " '"@ + name + "' not found"@
}

impl CompileError {
    /// The role and the name that a `NotFound` error carries.
    pub open spec fn missing(&self) -> Option<(Role, Seq<char>)> {
        match self {
            CompileError::Syntax(_) => None,
            CompileError::NotFound { role, name } => Some((*role, name@)),
        }
    }

    pub open spec fn spec_message(&self, source: Seq<u8>) -> Seq<char> {
        match self {
            CompileError::Syntax(e) => syntax_message(
                location_of(source, e.offset as int),
                e.expected,
            ),
            CompileError::NotFound { role, name } => not_found_message(*role, name@),
        }
    }

    /// The error in words. `source` is the text that was compiled; a syntax
    /// error is located in it.
    pub fn message(&self, source: &str) -> (text: String)
        ensures
            text@ == self.spec_message(source.spec_bytes()),
    {
        match self {
            CompileError::Syntax(e) => e.message(source.as_bytes()),
            CompileError::NotFound { role, name } => {
                let mut text = String::from_str(role.label());
                text.append(" '");
                text.append(name.as_str());
                text.append("' not found");
                text
            },
        }
    }
}

} // verus!
