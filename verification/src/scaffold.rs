//! The files of a new report project: a metadata file, four sections and one
//! finding, each with a few lines that show what belongs there.

use crate::assemble::{assembled, report_of};
use crate::fragments::{
    collected, files_of, join_with_pages, law_dense_ordinals, ordinal_of, page_of, slots_of,
    CollectError, FragmentFile, FragmentFileView,
};
use crate::metadata::{metadata_of, placeholders};
use crate::text::{digit_value, first_index_of, is_digit, number_of};
use vstd::prelude::*;

verus! {

/// The files of a report project, by what they hold.
#[derive(Debug, Clone)]
pub struct ProjectFiles {
    /// The text of the metadata file.
    pub metadata: String,
    /// The files of the directory of sections.
    pub sections: Vec<FragmentFile>,
    /// The files of the directory of findings.
    pub findings: Vec<FragmentFile>,
}

/// What a `ProjectFiles` stands for.
pub struct ProjectFilesView {
    pub metadata: Seq<char>,
    pub sections: Seq<FragmentFileView>,
    pub findings: Seq<FragmentFileView>,
}

impl View for ProjectFiles {
    type V = ProjectFilesView;

    open spec fn view(&self) -> ProjectFilesView {
        ProjectFilesView {
            metadata: self.metadata@,
            sections: files_of(self.sections@),
            findings: files_of(self.findings@),
        }
    }
}

/// The name of a project's metadata file.
pub open spec fn metadata_file_name() -> Seq<char> {
    "metadata.typ"@
}

/// The files of the example project.
pub open spec fn example_files() -> ProjectFilesView {
    ProjectFilesView {
        metadata: "title:Example Pentest Report\nprepared_for:Example prepared for\nprepared_by:Example prepared by"@,
        sections: seq![
            FragmentFileView {
                name: "1.summary.typ"@,
                body: "= Summary\nExample summary content\n#lorem(200)"@,
            },
            FragmentFileView {
                name: "2.scope.typ"@,
                body: "= Scope\nExample scope\n#lorem(200)"@,
            },
            FragmentFileView {
                name: "3.methodology.typ"@,
                body: "= Methodology\nExample methodology\n#lorem(200)"@,
            },
            FragmentFileView {
                name: "4.example_section.typ"@,
                body: "= Example section\nLook at this gorgeus sections content\n#lorem(200)"@,
            },
        ],
        findings: seq![
            FragmentFileView {
                name: "1.example_finding.typ"@,
                body: "= Example finding\nLook at this amazing finding\n#lorem(200)"@,
            },
        ],
    }
}

/// The name of a project's metadata file.
pub fn metadata_file() -> (name: &'static str)
    ensures
        name@ == metadata_file_name(),
{
    "metadata.typ"
}

/// A file named `name` that holds `body`.
fn file(name: &str, body: &str) -> (file: FragmentFile)
    ensures
        file@ == (FragmentFileView { name: name@, body: body@ }),
{
    FragmentFile { name: name.to_owned(), body: body.to_owned() }
}

/// The files that a new project starts with.
pub fn example_project() -> (project: ProjectFiles)
    ensures
        project@ == example_files(),
{
    let mut sections: Vec<FragmentFile> = Vec::new();
    sections.push(file("1.summary.typ", "= Summary\nExample summary content\n#lorem(200)"));
    sections.push(file("2.scope.typ", "= Scope\nExample scope\n#lorem(200)"));
    sections.push(file("3.methodology.typ", "= Methodology\nExample methodology\n#lorem(200)"));
    sections.push(
        file(
            "4.example_section.typ",
            "= Example section\nLook at this gorgeus sections content\n#lorem(200)",
        ),
    );
    let mut findings: Vec<FragmentFile> = Vec::new();
    findings.push(
        file("1.example_finding.typ", "= Example finding\nLook at this amazing finding\n#lorem(200)"),
    );
    let project = ProjectFiles {
        metadata: "title:Example Pentest Report\nprepared_for:Example prepared for\nprepared_by:Example prepared by".to_owned(),
        sections,
        findings,
    };
    assert(project@.sections == example_files().sections);
    assert(project@.findings == example_files().findings);
    project
}

/// A name that starts with one digit and a dot has that digit's value as its
/// ordinal.
proof fn lemma_ordinal_of_one_digit(name: Seq<char>)
    requires
        name.len() >= 2,
        is_digit(name[0]),
        name[1] == '.',
    ensures
        ordinal_of(name) == Some(digit_value(name[0])),
{
    reveal_with_fuel(first_index_of, 3);
    reveal_with_fuel(number_of, 2);
}

/// The ordinals of the example files are their places in their directories.
proof fn lemma_example_ordinals()
    ensures
        forall|i: int|
            0 <= i < 4 ==> ordinal_of((#[trigger] example_files().sections[i]).name) == Some(
                i + 1,
            ),
        ordinal_of(example_files().findings[0].name) == Some(1int),
{
    reveal_strlit("1.summary.typ");
    reveal_strlit("2.scope.typ");
    reveal_strlit("3.methodology.typ");
    reveal_strlit("4.example_section.typ");
    reveal_strlit("1.example_finding.typ");
    lemma_ordinal_of_one_digit("1.summary.typ"@);
    lemma_ordinal_of_one_digit("2.scope.typ"@);
    lemma_ordinal_of_one_digit("3.methodology.typ"@);
    lemma_ordinal_of_one_digit("4.example_section.typ"@);
    lemma_ordinal_of_one_digit("1.example_finding.typ"@);
}

/// The example project is assembled without error, whatever the template and
/// the date: its sections stand in the order in which they are listed, each
/// behind a page break, and so does its finding.
pub proof fn law_example_project_assembles(template: Seq<char>, date: Seq<char>)
    ensures
        collected(example_files().sections) == Ok::<Seq<char>, CollectError>(
            join_with_pages(example_files().sections),
        ),
        collected(example_files().findings) == Ok::<Seq<char>, CollectError>(
            page_of(example_files().findings[0].body),
        ),
        report_of(
            template,
            example_files().metadata,
            example_files().sections,
            example_files().findings,
            date,
        ) == Ok::<Seq<char>, CollectError>(
            assembled(
                template,
                metadata_of(example_files().metadata, placeholders()),
                date,
                join_with_pages(example_files().sections),
                page_of(example_files().findings[0].body),
            ),
        ),
{
    let sections = example_files().sections;
    let findings = example_files().findings;
    lemma_example_ordinals();
    law_dense_ordinals(sections);
    law_dense_ordinals(findings);
    assert(slots_of(sections) == Seq::new(4, |i: int| page_of(sections[i].body)));
}

} // verus!
