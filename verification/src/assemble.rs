//! The document: a template in which six placeholders give way to the
//! report's title, the date, the two parties, the sections and the findings.
//!
//! A placeholder is a name between `{{ ` and ` }}`, with one space on each
//! side of the name.  Every occurrence of a placeholder is replaced by its
//! value as it stands; nothing in the value is escaped.  The six are replaced
//! one after another, in the order given above, each over the whole text that
//! the one before it left behind.

use crate::date::{get_current_date, is_long_date};
use crate::fragments::{
    collect_fragments, collected, files_of, has_distinct_ordinals, law_listing_order,
    CollectError, FragmentFile, FragmentFileView,
};
use crate::metadata::{metadata_of, parse_metadata, placeholders, Metadata, MetadataView};
use crate::text::{append_chars, replace_all, replace_chars, to_chars, to_text};
use vstd::prelude::*;

verus! {

/// The placeholder of `name`.
pub open spec fn placeholder(name: Seq<char>) -> Seq<char> {
    "{{ "@ + name + " }}"@
}

/// `text` with `value` in place of every placeholder of `name`.
pub open spec fn substituted(text: Seq<char>, name: Seq<char>, value: Seq<char>) -> Seq<char> {
    replace_all(text, placeholder(name), value)
}

/// The six values that a template has places for.
#[derive(Debug, Clone, Copy, PartialEq, Eq, Structural)]
pub enum Field {
    Title,
    Date,
    PreparedFor,
    PreparedBy,
    Sections,
    Findings,
}

impl Field {
    /// The name in the field's placeholder.
    pub open spec fn name(self) -> Seq<char> {
        match self {
            Field::Title => "report_title"@,
            Field::Date => "date"@,
            Field::PreparedFor => "prepared_for"@,
            Field::PreparedBy => "prepared_by"@,
            Field::Sections => "sections"@,
            Field::Findings => "findings"@,
        }
    }

    /// The field's turn when a template is assembled, counted from zero.
    pub open spec fn rank(self) -> int {
        match self {
            Field::Title => 0,
            Field::Date => 1,
            Field::PreparedFor => 2,
            Field::PreparedBy => 3,
            Field::Sections => 4,
            Field::Findings => 5,
        }
    }

    /// The name in the field's placeholder.
    pub fn placeholder_name(&self) -> (name: &'static str)
        ensures
            name@ == self.name(),
    {
        match self {
            Field::Title => "report_title",
            Field::Date => "date",
            Field::PreparedFor => "prepared_for",
            Field::PreparedBy => "prepared_by",
            Field::Sections => "sections",
            Field::Findings => "findings",
        }
    }
}

/// The document that `template` gives with these values: the fields are
/// substituted one after another, in the order of their ranks.
pub open spec fn assembled(
    template: Seq<char>,
    metadata: MetadataView,
    date: Seq<char>,
    sections: Seq<char>,
    findings: Seq<char>,
) -> Seq<char> {
    let with_title = substituted(template, Field::Title.name(), metadata.title);
    let with_date = substituted(with_title, Field::Date.name(), date);
    let with_for = substituted(with_date, Field::PreparedFor.name(), metadata.prepared_for);
    let with_by = substituted(with_for, Field::PreparedBy.name(), metadata.prepared_by);
    let with_sections = substituted(with_by, Field::Sections.name(), sections);
    substituted(with_sections, Field::Findings.name(), findings)
}

/// The error of the first file of a report that cannot be placed, if there is
/// one: a section before a finding.
pub open spec fn collection_error(
    sections: Seq<FragmentFileView>,
    findings: Seq<FragmentFileView>,
) -> Option<CollectError> {
    match (collected(sections), collected(findings)) {
        (Err(error), _) => Some(error),
        (Ok(_), Err(error)) => Some(error),
        (Ok(_), Ok(_)) => None,
    }
}

/// The document of a report with this metadata text and these files, dated
/// `date`, or the error of the first file that cannot be placed.
pub open spec fn report_of(
    template: Seq<char>,
    metadata: Seq<char>,
    sections: Seq<FragmentFileView>,
    findings: Seq<FragmentFileView>,
    date: Seq<char>,
) -> Result<Seq<char>, CollectError> {
    match (collected(sections), collected(findings)) {
        (Err(error), _) => Err(error),
        (Ok(_), Err(error)) => Err(error),
        (Ok(sections_text), Ok(findings_text)) => Ok(
            assembled(
                template,
                metadata_of(metadata, placeholders()),
                date,
                sections_text,
                findings_text,
            ),
        ),
    }
}

/// A document and the date that stands in it.
#[derive(Debug, Clone)]
pub struct Report {
    pub date: String,
    pub source: String,
}

/// Replaces the placeholder of `name` in `text` by `value`.
fn substitute_chars(text: &[char], name: &str, value: &[char]) -> (out: Vec<char>)
    ensures
        out@ == substituted(text@, name@, value@),
{
    let mut token = to_chars("{{ ");
    append_chars(&mut token, to_chars(name).as_slice());
    append_chars(&mut token, to_chars(" }}").as_slice());
    replace_chars(text, token.as_slice(), value)
}

/// Replaces every placeholder of `name` in `text` by `value`.
pub fn substitute(text: &str, name: &str, value: &str) -> (out: String)
    ensures
        out@ == substituted(text@, name@, value@),
{
    let out = substitute_chars(to_chars(text).as_slice(), name, to_chars(value).as_slice());
    to_text(out.as_slice())
}

/// Fills `template` with the metadata, the date and the joined texts of the
/// two categories.
pub fn assemble(
    template: &str,
    metadata: &Metadata,
    date: &str,
    sections: &str,
    findings: &str,
) -> (document: String)
    ensures
        document@ == assembled(template@, metadata@, date@, sections@, findings@),
{
    let text = to_chars(template);
    let text = substitute_chars(
        text.as_slice(),
        Field::Title.placeholder_name(),
        to_chars(metadata.title.as_str()).as_slice(),
    );
    let text = substitute_chars(
        text.as_slice(),
        Field::Date.placeholder_name(),
        to_chars(date).as_slice(),
    );
    let text = substitute_chars(
        text.as_slice(),
        Field::PreparedFor.placeholder_name(),
        to_chars(metadata.prepared_for.as_str()).as_slice(),
    );
    let text = substitute_chars(
        text.as_slice(),
        Field::PreparedBy.placeholder_name(),
        to_chars(metadata.prepared_by.as_str()).as_slice(),
    );
    let text = substitute_chars(
        text.as_slice(),
        Field::Sections.placeholder_name(),
        to_chars(sections).as_slice(),
    );
    let text = substitute_chars(
        text.as_slice(),
        Field::Findings.placeholder_name(),
        to_chars(findings).as_slice(),
    );
    to_text(text.as_slice())
}

/// Assembles the document of a report from the text of its metadata file and
/// the files of its two directories, with `date` as its date.
pub fn assemble_report(
    template: &str,
    metadata: &str,
    sections: &Vec<FragmentFile>,
    findings: &Vec<FragmentFile>,
    date: &str,
) -> (document: Result<String, CollectError>)
    ensures
        match report_of(template@, metadata@, files_of(sections@), files_of(findings@), date@) {
            Ok(text) => document matches Ok(s) && s@ == text,
            Err(error) => document matches Err(e) && e == error,
        },
{
    let metadata = parse_metadata(metadata);
    let sections = match collect_fragments(sections) {
        Ok(text) => text,
        Err(error) => { return Err(error); },
    };
    let findings = match collect_fragments(findings) {
        Ok(text) => text,
        Err(error) => { return Err(error); },
    };
    Ok(assemble(template, &metadata, date, sections.as_str(), findings.as_str()))
}

/// Fills `template` as `assemble` does, with the date of today: the document
/// and the date that was put into it.
pub fn assemble_today(template: &str, metadata: &Metadata, sections: &str, findings: &str) -> (report:
    Report)
    ensures
        is_long_date(report.date@),
        report.source@ == assembled(template@, metadata@, report.date@, sections@, findings@),
{
    let date = get_current_date();
    let source = assemble(template, metadata, date.as_str(), sections, findings);
    Report { date, source }
}

/// Assembles the document of a report as `assemble_report` does, with the
/// date of today: the document and the date that was put into it.
pub fn assemble_report_today(
    template: &str,
    metadata: &str,
    sections: &Vec<FragmentFile>,
    findings: &Vec<FragmentFile>,
) -> (report: Result<Report, CollectError>)
    ensures
        match collection_error(files_of(sections@), files_of(findings@)) {
            Some(error) => report matches Err(e) && e == error,
            None => report matches Ok(dated) && is_long_date(dated.date@) && report_of(
                template@,
                metadata@,
                files_of(sections@),
                files_of(findings@),
                dated.date@,
            ) == Ok::<Seq<char>, CollectError>(dated.source@),
        },
{
    let metadata = parse_metadata(metadata);
    let sections = match collect_fragments(sections) {
        Ok(text) => text,
        Err(error) => { return Err(error); },
    };
    let findings = match collect_fragments(findings) {
        Ok(text) => text,
        Err(error) => { return Err(error); },
    };
    Ok(assemble_today(template, &metadata, sections.as_str(), findings.as_str()))
}

/// A report that is assembled once more from the same files gives the same
/// document for the same date, in whatever order the files of its two
/// directories are listed, as long as no two files of a directory have the
/// same ordinal.
pub proof fn law_report_in_any_order(
    template: Seq<char>,
    metadata: Seq<char>,
    sections: Seq<FragmentFileView>,
    sections_again: Seq<FragmentFileView>,
    findings: Seq<FragmentFileView>,
    findings_again: Seq<FragmentFileView>,
    date: Seq<char>,
)
    requires
        sections.to_multiset() == sections_again.to_multiset(),
        findings.to_multiset() == findings_again.to_multiset(),
        has_distinct_ordinals(sections),
        has_distinct_ordinals(findings),
        report_of(template, metadata, sections, findings, date) is Ok,
    ensures
        report_of(template, metadata, sections_again, findings_again, date) == report_of(
            template,
            metadata,
            sections,
            findings,
            date,
        ),
{
    law_listing_order(sections, sections_again);
    law_listing_order(findings, findings_again);
}

} // verus!
