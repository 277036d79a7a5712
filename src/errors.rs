use vstd::prelude::*;
use vstd::string::StringExecFns;

verus! {

/// The failures that the pipeline reports, one kind per stage, each with a
/// human-readable message.
#[derive(Debug)]
pub enum Error {
    Lexical(String),
    Syntax(String),
    Type(String),
    CodeGen(String),
}

/// What an `Error` holds, with its message as a sequence of characters.
pub enum ErrorModel {
    Lexical(Seq<char>),
    Syntax(Seq<char>),
    Type(Seq<char>),
    CodeGen(Seq<char>),
}

impl Error {
    pub open spec fn model(&self) -> ErrorModel {
        match self {
            Error::Lexical(m) => ErrorModel::Lexical(m@),
            Error::Syntax(m) => ErrorModel::Syntax(m@),
            Error::Type(m) => ErrorModel::Type(m@),
            Error::CodeGen(m) => ErrorModel::CodeGen(m@),
        }
    }

    /// The message for a reader: the kind in words, a colon, then the message.
    pub fn to_string(&self) -> (r: String)
        ensures
            r@ == describe(self.model()),
    {
        let (prefix, msg) = match self {
            Error::Lexical(m) => ("Lexical error: ", m),
            Error::Syntax(m) => ("Syntax error: ", m),
            Error::Type(m) => ("Type error: ", m),
            Error::CodeGen(m) => ("Code generation error: ", m),
        };
        let mut r = String::from_str(prefix);
        r.append(msg.as_str());
        r
    }
}

pub open spec fn describe(e: ErrorModel) -> Seq<char> {
    match e {
        ErrorModel::Lexical(m) => "Lexical error: "@ + m,
        ErrorModel::Syntax(m) => "Syntax error: "@ + m,
        ErrorModel::Type(m) => "Type error: "@ + m,
        ErrorModel::CodeGen(m) => "Code generation error: "@ + m,
    }
}

} // verus!
