//! What can go wrong in a compilation.
use crate::text::{Chars, join2, join3, join4};
use vstd::prelude::*;

verus! {

/// What went wrong, by the part of the work that it went wrong in.
#[derive(Debug)]
pub enum Error {
    /// The command line, or the order in which stages were called.
    Usage(String),
    /// A file or a directory, and what the system said of it.
    Io { path: String, source: String },
    /// A source that is no program.
    Parse { file: String, message: String },
    Type(String),
    Elaborate(String),
    Mir(String),
    Borrow(String),
    /// A name that is defined in two places.
    DuplicateDef { name: String, first: String, second: String },
    Build(String),
    Run(String),
}

/// An `Error` as a mathematical value.
pub enum ErrorView {
    Usage(Chars),
    Io { path: Chars, source: Chars },
    Parse { file: Chars, message: Chars },
    Type(Chars),
    Elaborate(Chars),
    Mir(Chars),
    Borrow(Chars),
    DuplicateDef { name: Chars, first: Chars, second: Chars },
    Build(Chars),
    Run(Chars),
}

impl ErrorView {
    /// The error in words.
    pub open spec fn text(self) -> Chars {
        match self {
            ErrorView::Usage(msg) => msg,
            ErrorView::Io { path, source } => "I/O error on "@ + path + ": "@ + source,
            ErrorView::Parse { file, message } => "parse error in "@ + file + ": "@ + message,
            ErrorView::Type(msg) => "type error: "@ + msg,
            ErrorView::Elaborate(msg) => "elaboration error: "@ + msg,
            ErrorView::Mir(msg) => "MIR error: "@ + msg,
            ErrorView::Borrow(msg) => "borrow error: "@ + msg,
            ErrorView::DuplicateDef { name, first, second } => "duplicate definition `"@ + name
                + "` in "@ + first + " and "@ + second,
            ErrorView::Build(msg) => "build error: "@ + msg,
            ErrorView::Run(msg) => "run error: "@ + msg,
        }
    }

    /// The exit code: 1 for how the compiler was called, 2 for the program, 3 for
    /// the build, 4 for the run.
    pub open spec fn exit_code(self) -> i32 {
        match self {
            ErrorView::Usage(_) => 1,
            ErrorView::Build(_) => 3,
            ErrorView::Run(_) => 4,
            _ => 2,
        }
    }
}

impl View for Error {
    type V = ErrorView;

    open spec fn view(&self) -> ErrorView {
        match *self {
            Error::Usage(msg) => ErrorView::Usage(msg@),
            Error::Io { path, source } => ErrorView::Io { path: path@, source: source@ },
            Error::Parse { file, message } => ErrorView::Parse {
                file: file@,
                message: message@,
            },
            Error::Type(msg) => ErrorView::Type(msg@),
            Error::Elaborate(msg) => ErrorView::Elaborate(msg@),
            Error::Mir(msg) => ErrorView::Mir(msg@),
            Error::Borrow(msg) => ErrorView::Borrow(msg@),
            Error::DuplicateDef { name, first, second } => ErrorView::DuplicateDef {
                name: name@,
                first: first@,
                second: second@,
            },
            Error::Build(msg) => ErrorView::Build(msg@),
            Error::Run(msg) => ErrorView::Run(msg@),
        }
    }
}

impl Error {
    /// The error in words.
    pub fn to_text(&self) -> (r: String)
        ensures
            r@ == self@.text(),
    {
        match self {
            Error::Usage(msg) => msg.clone(),
            Error::Io { path, source } => join4(
                "I/O error on ",
                path.as_str(),
                ": ",
                source.as_str(),
            ),
            Error::Parse { file, message } => join4(
                "parse error in ",
                file.as_str(),
                ": ",
                message.as_str(),
            ),
            Error::Type(msg) => join2("type error: ", msg.as_str()),
            Error::Elaborate(msg) => join2("elaboration error: ", msg.as_str()),
            Error::Mir(msg) => join2("MIR error: ", msg.as_str()),
            Error::Borrow(msg) => join2("borrow error: ", msg.as_str()),
            Error::DuplicateDef { name, first, second } => {
                let places = join3("` in ", first.as_str(), " and ");
                let text = join4(
                    "duplicate definition `",
                    name.as_str(),
                    places.as_str(),
                    second.as_str(),
                );
                assert(text@ =~= self@.text());
                text
            },
            Error::Build(msg) => join2("build error: ", msg.as_str()),
            Error::Run(msg) => join2("run error: ", msg.as_str()),
        }
    }

    /// The exit code of a compiler that stops with this error.
    pub fn exit_code(&self) -> (r: i32)
        ensures
            r == self@.exit_code(),
    {
        match self {
            Error::Usage(_) => 1,
            Error::Build(_) => 3,
            Error::Run(_) => 4,
            _ => 2,
        }
    }
}

} // verus!
