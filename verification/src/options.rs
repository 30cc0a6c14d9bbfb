//! The command line, once its words are at hand.

use vstd::prelude::*;
use vstd::string::StringExecFns;

verus! {

/// What the program is asked to do.
#[derive(Clone, Copy, Debug, PartialEq, Eq, Structural)]
pub enum Operation {
    /// Import the projects of a file.
    Projects,
}

/// Why a command line was not understood.
#[derive(Clone, Debug, PartialEq, Eq)]
pub enum OptionsError {
    /// The command line does not consist of the program's name, a command
    /// and a path.
    InvalidArguments,
    /// The command is none of the known ones.
    UnknownOperation { name: String },
}

/// Mathematical value of an [`OptionsError`].
pub enum OptionsErrorView {
    InvalidArguments,
    UnknownOperation { name: Seq<char> },
}

impl View for OptionsError {
    type V = OptionsErrorView;

    open spec fn view(&self) -> OptionsErrorView {
        match *self {
            OptionsError::InvalidArguments => OptionsErrorView::InvalidArguments,
            OptionsError::UnknownOperation { name } => OptionsErrorView::UnknownOperation {
                name: name@,
            },
        }
    }
}

impl Operation {
    /// The operation that the word `s` names, or the word itself where it
    /// names none.
    pub open spec fn spec_from_str(s: Seq<char>) -> Result<Operation, OptionsErrorView> {
        if s == "PROJECTS"@ {
            Ok(Operation::Projects)
        } else {
            Err(OptionsErrorView::UnknownOperation { name: s })
        }
    }

    /// Reads the name of an operation.
    pub fn from_str(s: &str) -> (r: Result<Operation, OptionsError>)
        ensures
            match Operation::spec_from_str(s@) {
                Ok(operation) => r == Ok::<Operation, OptionsError>(operation),
                Err(e) => r is Err && r->Err_0@ == e,
            },
    {
        let word = s.to_owned();
        if word == String::from_str("PROJECTS") {
            Ok(Operation::Projects)
        } else {
            Err(OptionsError::UnknownOperation { name: word })
        }
    }

    /// The name of the operation.
    pub open spec fn spec_name(self) -> Seq<char> {
        match self {
            Operation::Projects => "PROJECTS"@,
        }
    }

    /// The name of the operation, which `from_str` reads back as the operation.
    pub fn name(&self) -> (r: &'static str)
        ensures
            r@ == self.spec_name(),
            Operation::spec_from_str(r@) == Ok::<Operation, OptionsErrorView>(*self),
    {
        match self {
            Operation::Projects => "PROJECTS",
        }
    }
}

/// The options that a command line gives.
#[derive(Clone, Debug)]
pub struct Options {
    /// The command.
    pub operation: Operation,
    /// The path of the file to read.
    pub csv_path: String,
}

impl Options {
    /// The options in a command line of exactly three words: the program's
    /// name, the command and the path.
    pub open spec fn spec_parse_options(args: Seq<Seq<char>>) -> Result<
        (Operation, Seq<char>),
        OptionsErrorView,
    > {
        if args.len() != 3 {
            Err(OptionsErrorView::InvalidArguments)
        } else {
            match Operation::spec_from_str(args[1]) {
                Ok(operation) => Ok((operation, args[2])),
                Err(e) => Err(e),
            }
        }
    }

    /// Parses the options from the program's arguments, the program's name
    /// being the first of them.
    pub fn parse_options(args: &Vec<String>) -> (r: Result<Options, OptionsError>)
        ensures
            match Options::spec_parse_options(args@.map_values(|s: String| s@)) {
                Ok((operation, path)) => r is Ok && r->Ok_0.operation == operation
                    && r->Ok_0.csv_path@ == path,
                Err(e) => r is Err && r->Err_0@ == e,
            },
    {
        if args.len() != 3 {
            return Err(OptionsError::InvalidArguments);
        }
        match Operation::from_str(args[1].as_str()) {
            Ok(operation) => Ok(Options { operation, csv_path: args[2].clone() }),
            Err(e) => Err(e),
        }
    }

    /// The two lines that describe the options in a log: the operation and
    /// the input path.
    pub fn dump_to_log(&self) -> (lines: Vec<String>)
        ensures
            lines@.len() == 2,
            lines@[0]@ == "Operation: "@ + self.operation.spec_name(),
            lines@[1]@ == "CSV Input: "@ + self.csv_path@,
    {
        let mut lines: Vec<String> = Vec::new();
        lines.push(String::from_str("Operation: ").concat(self.operation.name()));
        lines.push(String::from_str("CSV Input: ").concat(self.csv_path.as_str()));
        lines
    }
}

} // verus!
