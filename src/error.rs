use vstd::prelude::*;

verus! {

/// Why a build stops.
#[derive(Debug)]
pub enum BuildError {
    /// The compiler's response does not have the expected shape.
    ParseFailure,
    /// A diagnostic carries a severity other than warning or error.
    UnknownSeverity,
    /// At least one diagnostic has error severity.
    CompilationFailed,
    /// The requested unit is not among those of the source file.
    MissingContract(String),
    /// More than one unit qualifies; the flag tells whether only deployable
    /// ones were counted.
    MultipleContracts(bool),
    /// No unit qualifies; the flag tells whether only deployable ones were
    /// counted.
    NoContracts(bool),
    /// The output prefix holds a path separator.
    InvalidOutputPrefix(String),
}

pub open spec fn qualification(deployable: bool) -> Seq<char> {
    if deployable {
        "deployable "@
    } else {
        ""@
    }
}

/// The line that reports `e` to the user.
pub open spec fn error_message(e: BuildError) -> Seq<char> {
    match e {
        BuildError::ParseFailure => "Failed to parse compilation result"@,
        BuildError::UnknownSeverity => "Unknown severity"@,
        BuildError::CompilationFailed => "Compilation failed"@,
        BuildError::MissingContract(name) => "Source file doesn't contain the desired contract \""@
            + name@ + "\""@,
        BuildError::MultipleContracts(d) => "Source file contains at least two "@ + qualification(d)
            + "contracts. Consider adding the option --contract in compiler command line to select the desired contract"@,
        BuildError::NoContracts(d) => "Source file contains no "@ + qualification(d)
            + "contracts"@,
        BuildError::InvalidOutputPrefix(prefix) => "Invalid output prefix \""@ + prefix@
            + "\". Use option -O to set output directory"@,
    }
}

fn qualification_text(deployable: bool) -> (r: &'static str)
    ensures
        r@ == qualification(deployable),
{
    if deployable {
        "deployable "
    } else {
        ""
    }
}

impl BuildError {
    /// The line that reports this error to the user.
    pub fn message(&self) -> (r: String)
        ensures
            r@ == error_message(*self),
    {
        match self {
            BuildError::ParseFailure => String::from_str("Failed to parse compilation result"),
            BuildError::UnknownSeverity => String::from_str("Unknown severity"),
            BuildError::CompilationFailed => String::from_str("Compilation failed"),
            BuildError::MissingContract(name) => {
                let mut r = String::from_str("Source file doesn't contain the desired contract \"");
                r.append(name.as_str());
                r.append("\"");
                r
            },
            BuildError::MultipleContracts(d) => {
                let mut r = String::from_str("Source file contains at least two ");
                r.append(qualification_text(*d));
                r.append(
                    "contracts. Consider adding the option --contract in compiler command line to select the desired contract",
                );
                r
            },
            BuildError::NoContracts(d) => {
                let mut r = String::from_str("Source file contains no ");
                r.append(qualification_text(*d));
                r.append("contracts");
                r
            },
            BuildError::InvalidOutputPrefix(prefix) => {
                let mut r = String::from_str("Invalid output prefix \"");
                r.append(prefix.as_str());
                r.append("\". Use option -O to set output directory");
                r
            },
        }
    }
}

} // verus!
