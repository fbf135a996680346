//! The ways a processing run can fail. Every stage is total-failure or
//! total-success: the first error aborts the run, and the driver turns it
//! into a single human-readable message.

use vstd::prelude::*;

use crate::value::{SpecValue, Value};

verus! {

/// Model of a processing failure; pattern and template names are kept as
/// character sequences.
pub enum SpecProcessError {
    UnresolvedInclude(Seq<char>),
    CyclicInclude(Seq<char>),
    MalformedInclude,
    MalformedGeneric,
    UnknownTemplate(Seq<char>),
}

/// Why a processing run failed.
pub enum ProcessError {
    /// An `$include` directive needs this pattern, but no loaded content
    /// was supplied for it.
    UnresolvedInclude(String),
    /// Include expansion nested deeper than the number of loaded sources
    /// allows: the include graph is cyclic.
    CyclicInclude(String),
    /// An `$include` key whose value is not a text pattern.
    MalformedInclude,
    /// A `$generic` key whose value is not a mapping holding a text
    /// `target` entry.
    MalformedGeneric,
    /// A `$generic` invocation names a template that was never defined.
    UnknownTemplate(String),
}

impl View for ProcessError {
    type V = SpecProcessError;

    open spec fn view(&self) -> SpecProcessError {
        match self {
            ProcessError::UnresolvedInclude(p) => SpecProcessError::UnresolvedInclude(p@),
            ProcessError::CyclicInclude(p) => SpecProcessError::CyclicInclude(p@),
            ProcessError::MalformedInclude => SpecProcessError::MalformedInclude,
            ProcessError::MalformedGeneric => SpecProcessError::MalformedGeneric,
            ProcessError::UnknownTemplate(t) => SpecProcessError::UnknownTemplate(t@),
        }
    }
}

/// The run-time outcome `r` carries out the modelled outcome `s`: the same
/// success or failure, with the matching tree or error.
pub open spec fn spec_result_matches(
    r: Result<Value, ProcessError>,
    s: Result<SpecValue, SpecProcessError>,
) -> bool {
    match s {
        Ok(sv) => r matches Ok(v) && v@ == sv,
        Err(se) => r matches Err(e) && e@ == se,
    }
}

/// The one diagnostic line reported for a failure.
pub open spec fn spec_error_message(e: SpecProcessError) -> Seq<char> {
    match e {
        SpecProcessError::UnresolvedInclude(p) => "no loaded content for include pattern '"@ + p
            + "'"@,
        SpecProcessError::CyclicInclude(p) => "includes nest without end at pattern '"@ + p + "'"@,
        SpecProcessError::MalformedInclude => "an $include value must be a string pattern"@,
        SpecProcessError::MalformedGeneric => "a $generic value must be a mapping with a string target"@,
        SpecProcessError::UnknownTemplate(t) => "there is no generic found for "@ + t,
    }
}

/// A processing failure as reported to the caller, carrying the one
/// diagnostic line for the run.
pub struct YamlProcessError {
    pub message: String,
}

impl YamlProcessError {
    /// The diagnostic line describing `e`.
    pub fn from_process_error(e: &ProcessError) -> (r: YamlProcessError)
        ensures
            r.message@ == spec_error_message(e@),
    {
        let mut message: String;
        match e {
            ProcessError::UnresolvedInclude(p) => {
                message = "no loaded content for include pattern '".to_owned();
                message.append(p.as_str());
                message.append("'");
            },
            ProcessError::CyclicInclude(p) => {
                message = "includes nest without end at pattern '".to_owned();
                message.append(p.as_str());
                message.append("'");
            },
            ProcessError::MalformedInclude => {
                message = "an $include value must be a string pattern".to_owned();
            },
            ProcessError::MalformedGeneric => {
                message = "a $generic value must be a mapping with a string target".to_owned();
            },
            ProcessError::UnknownTemplate(t) => {
                message = "there is no generic found for ".to_owned();
                message.append(t.as_str());
            },
        }
        YamlProcessError { message }
    }
}

} // verus!
