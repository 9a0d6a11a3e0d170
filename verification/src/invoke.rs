//! The call of the compiler that renders a document.
//!
//! The document is written to a file of a fixed name in the working
//! directory, and the compiler is called with the word `compile`, that file
//! and the file to write the rendering to.

use crate::text::strings_of;
use vstd::prelude::*;

verus! {

/// The name of the file that holds the document while it is rendered.
pub open spec fn transient_file_name() -> Seq<char> {
    "tmp.typ"@
}

/// The file that the rendering goes to: the one asked for, or `report.pdf`.
pub open spec fn output_of(output: Option<Seq<char>>) -> Seq<char> {
    match output {
        Some(file) => file,
        None => "report.pdf"@,
    }
}

/// The file name that an optional string asks for.
pub open spec fn asked(output: Option<String>) -> Option<Seq<char>> {
    match output {
        Some(file) => Some(file@),
        None => None,
    }
}

/// A program and the arguments to call it with.
#[derive(Debug, Clone)]
pub struct Invocation {
    pub program: String,
    pub arguments: Vec<String>,
}

/// The name of the file that holds the document while it is rendered.
pub fn transient_file() -> (name: &'static str)
    ensures
        name@ == transient_file_name(),
{
    "tmp.typ"
}

/// The file that the rendering goes to: the one asked for, or `report.pdf`.
pub fn output_file(output: &Option<String>) -> (name: String)
    ensures
        name@ == output_of(asked(*output)),
{
    match output {
        Some(file) => file.clone(),
        None => "report.pdf".to_owned(),
    }
}

/// The call that renders the transient file to the file asked for.
pub fn invocation(output: &Option<String>) -> (call: Invocation)
    ensures
        call.program@ == "typst"@,
        strings_of(call.arguments@) == seq![
            "compile"@,
            transient_file_name(),
            output_of(asked(*output)),
        ],
{
    let mut arguments: Vec<String> = Vec::new();
    arguments.push("compile".to_owned());
    arguments.push(transient_file().to_owned());
    arguments.push(output_file(output));
    Invocation { program: "typst".to_owned(), arguments }
}

} // verus!
