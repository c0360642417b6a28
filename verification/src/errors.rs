//! Diagnostics: ordinary validation failures collected per call, and the
//! hard errors that mean the schema asset itself is broken.
use vstd::prelude::*;
use vstd::string::StringExecFns;

use crate::pointer::JsonPointer;

verus! {

/// Model of a hard error: the schema asset itself is unusable, so the call
/// aborts instead of reporting validation failures.
pub enum SpecHard {
    /// A `$ref` that does not start with `#`.
    NonLocalRef(Seq<char>),
    /// A local `$ref` whose fragment neither is empty nor starts with `/`.
    InvalidLocalRef(Seq<char>),
    /// A local `$ref` whose fragment path does not resolve.
    UnresolvedRef(Seq<char>),
    /// A `pattern` keyword holding an invalid regular expression.
    InvalidRegex(Seq<char>),
    /// An `additionalProperties` value that is neither boolean nor object.
    BadAdditionalProperties,
    /// Recursion went past the configured maximum depth.
    DepthExceeded,
}

/// A hard error: the schema asset itself is unusable, so the call aborts
/// instead of reporting validation failures.
#[derive(Debug)]
pub enum HardError {
    NonLocalRef(String),
    InvalidLocalRef(String),
    UnresolvedRef(String),
    InvalidRegex(String),
    BadAdditionalProperties,
    DepthExceeded,
}

impl View for HardError {
    type V = SpecHard;

    open spec fn view(&self) -> SpecHard {
        match self {
            HardError::NonLocalRef(r) => SpecHard::NonLocalRef(r@),
            HardError::InvalidLocalRef(r) => SpecHard::InvalidLocalRef(r@),
            HardError::UnresolvedRef(r) => SpecHard::UnresolvedRef(r@),
            HardError::InvalidRegex(p) => SpecHard::InvalidRegex(p@),
            HardError::BadAdditionalProperties => SpecHard::BadAdditionalProperties,
            HardError::DepthExceeded => SpecHard::DepthExceeded,
        }
    }
}

/// The leading part of every `$ref` hard-error message.
pub open spec fn ref_context(r: Seq<char>) -> Seq<char> {
    "Unsupported or unresolved $ref: \""@ + r + "\": "@
}

/// The rendered message of a hard error.
pub open spec fn hard_message(h: SpecHard) -> Seq<char> {
    match h {
        SpecHard::NonLocalRef(r) => ref_context(r) + "Only local refs are supported: "@ + r,
        SpecHard::InvalidLocalRef(r) => ref_context(r) + "Invalid local ref: "@ + r,
        SpecHard::UnresolvedRef(r) => ref_context(r) + "Unresolved $ref: "@ + r,
        SpecHard::InvalidRegex(p) => "Invalid regex pattern in schema: "@ + p,
        SpecHard::BadAdditionalProperties => "Unsupported additionalProperties value in schema"@,
        SpecHard::DepthExceeded => "Schema validation exceeded maximum depth"@,
    }
}

impl HardError {
    /// Renders this hard error for display.
    pub fn message(&self) -> (r: String)
        ensures
            r@ == hard_message(self@),
    {
        match self {
            HardError::NonLocalRef(re) => {
                proof {
                    reveal_strlit("Unsupported or unresolved $ref: \"");
                    reveal_strlit("\": ");
                    reveal_strlit("Only local refs are supported: ");
                }
                let mut m: String = "Unsupported or unresolved $ref: \"".to_owned();
                m.append(re.as_str());
                m.append("\": ");
                m.append("Only local refs are supported: ");
                m.append(re.as_str());
                proof {
                    assert(m@ =~= hard_message(self@));
                }
                m
            },
            HardError::InvalidLocalRef(re) => {
                proof {
                    reveal_strlit("Unsupported or unresolved $ref: \"");
                    reveal_strlit("\": ");
                    reveal_strlit("Invalid local ref: ");
                }
                let mut m: String = "Unsupported or unresolved $ref: \"".to_owned();
                m.append(re.as_str());
                m.append("\": ");
                m.append("Invalid local ref: ");
                m.append(re.as_str());
                proof {
                    assert(m@ =~= hard_message(self@));
                }
                m
            },
            HardError::UnresolvedRef(re) => {
                proof {
                    reveal_strlit("Unsupported or unresolved $ref: \"");
                    reveal_strlit("\": ");
                    reveal_strlit("Unresolved $ref: ");
                }
                let mut m: String = "Unsupported or unresolved $ref: \"".to_owned();
                m.append(re.as_str());
                m.append("\": ");
                m.append("Unresolved $ref: ");
                m.append(re.as_str());
                proof {
                    assert(m@ =~= hard_message(self@));
                }
                m
            },
            HardError::InvalidRegex(p) => {
                proof {
                    reveal_strlit("Invalid regex pattern in schema: ");
                }
                let mut m: String = "Invalid regex pattern in schema: ".to_owned();
                m.append(p.as_str());
                proof {
                    assert(m@ =~= hard_message(self@));
                }
                m
            },
            HardError::BadAdditionalProperties => {
                proof {
                    reveal_strlit("Unsupported additionalProperties value in schema");
                }
                "Unsupported additionalProperties value in schema".to_owned()
            },
            HardError::DepthExceeded => {
                proof {
                    reveal_strlit("Schema validation exceeded maximum depth");
                }
                "Schema validation exceeded maximum depth".to_owned()
            },
        }
    }
}

/// A collected diagnostic: where in the instance it was found, and what was
/// found there.
pub struct StructuralError {
    path: JsonPointer,
    message: String,
}

impl View for StructuralError {
    type V = (Seq<char>, Seq<char>);

    closed spec fn view(&self) -> (Seq<char>, Seq<char>) {
        (self.path@, self.message@)
    }
}

/// How one diagnostic is rendered: the message alone at the root pointer,
/// and `"{pointer}: {message}"` everywhere else.
pub open spec fn render_err(e: (Seq<char>, Seq<char>)) -> Seq<char> {
    if e.0.len() == 0 {
        e.1
    } else {
        e.0 + ": "@ + e.1
    }
}

impl StructuralError {
    pub fn new(instance_path: JsonPointer, message: String) -> (r: Self)
        ensures
            r@ == (instance_path@, message@),
    {
        StructuralError { path: instance_path, message }
    }

    /// Renders this diagnostic as one line.
    pub fn render(&self) -> (r: String)
        ensures
            r@ == render_err(self@),
    {
        if self.path.as_str().is_empty() {
            let m = self.message.clone();
            proof {
                assert(m@ =~= render_err(self@));
            }
            m
        } else {
            proof {
                reveal_strlit(": ");
            }
            let mut m = String::new();
            m.append(self.path.as_str());
            m.append(": ");
            m.append(self.message.as_str());
            proof {
                assert(m@ =~= render_err(self@));
            }
            m
        }
    }
}

} // verus!
