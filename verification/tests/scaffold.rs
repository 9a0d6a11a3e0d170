use pentest_report::fragments::{collect_fragments, parse_ordinal};
use pentest_report::metadata::parse_metadata;
use pentest_report::scaffold::{example_project, metadata_file};

#[test]
fn the_metadata_file_has_its_name() {
    assert_eq!(metadata_file(), "metadata.typ");
}

#[test]
fn the_example_project_has_its_metadata() {
    let project = example_project();
    assert_eq!(
        project.metadata,
        "title:Example Pentest Report\nprepared_for:Example prepared for\nprepared_by:Example prepared by"
    );
    let metadata = parse_metadata(&project.metadata);
    assert_eq!(metadata.title, "Example Pentest Report");
    assert_eq!(metadata.prepared_for, "Example prepared for");
    assert_eq!(metadata.prepared_by, "Example prepared by");
}

#[test]
fn the_example_project_has_four_sections_and_one_finding() {
    let project = example_project();
    let names: Vec<&str> = project.sections.iter().map(|file| file.name.as_str()).collect();
    assert_eq!(names, ["1.summary.typ", "2.scope.typ", "3.methodology.typ", "4.example_section.typ"]);
    let bodies: Vec<&str> = project.sections.iter().map(|file| file.body.as_str()).collect();
    assert_eq!(
        bodies,
        [
            "= Summary\nExample summary content\n#lorem(200)",
            "= Scope\nExample scope\n#lorem(200)",
            "= Methodology\nExample methodology\n#lorem(200)",
            "= Example section\nLook at this gorgeus sections content\n#lorem(200)",
        ]
    );
    assert_eq!(project.findings.len(), 1);
    assert_eq!(project.findings[0].name, "1.example_finding.typ");
    assert_eq!(project.findings[0].body, "= Example finding\nLook at this amazing finding\n#lorem(200)");
}

#[test]
fn the_example_files_are_numbered_from_one_without_a_gap() {
    let project = example_project();
    let ordinals: Vec<Option<usize>> =
        project.sections.iter().map(|file| parse_ordinal(&file.name)).collect();
    assert_eq!(ordinals, [Some(1), Some(2), Some(3), Some(4)]);
    assert_eq!(parse_ordinal(&project.findings[0].name), Some(1));
    assert!(collect_fragments(&project.sections).is_ok());
    assert!(collect_fragments(&project.findings).is_ok());
}
