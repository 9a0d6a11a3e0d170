use pentest_report::metadata::{parse_metadata, parse_metadata_over, Metadata};

const NO_TITLE: &str = "[REPORT TITLE - CHANGE ME]";
const NO_PREPARED_FOR: &str = "[PREPARED FOR - CHANGE ME]";
const NO_PREPARED_BY: &str = "[PREPARED BY - CHANGE ME]";

#[test]
fn default_metadata_is_the_three_placeholders() {
    let m = Metadata::default();
    assert_eq!(m.title, NO_TITLE);
    assert_eq!(m.prepared_for, NO_PREPARED_FOR);
    assert_eq!(m.prepared_by, NO_PREPARED_BY);
}

#[test]
fn empty_metadata_text_gives_the_placeholders() {
    let m = parse_metadata("");
    assert_eq!(m.title, NO_TITLE);
    assert_eq!(m.prepared_for, NO_PREPARED_FOR);
    assert_eq!(m.prepared_by, NO_PREPARED_BY);
}

#[test]
fn metadata_without_prepared_by_keeps_its_placeholder() {
    let m = parse_metadata("title:Acme Report\nprepared_for:Acme Co");
    assert_eq!(m.title, "Acme Report");
    assert_eq!(m.prepared_for, "Acme Co");
    assert_eq!(m.prepared_by, NO_PREPARED_BY);
}

#[test]
fn all_three_keys_are_read() {
    let m = parse_metadata(
        "title:Example Pentest Report\nprepared_for:Example prepared for\nprepared_by:Example prepared by",
    );
    assert_eq!(m.title, "Example Pentest Report");
    assert_eq!(m.prepared_for, "Example prepared for");
    assert_eq!(m.prepared_by, "Example prepared by");
}

#[test]
fn the_order_of_the_lines_does_not_matter_between_keys() {
    let m = parse_metadata("prepared_by:C\ntitle:A\nprepared_for:B\n");
    assert_eq!(m.title, "A");
    assert_eq!(m.prepared_for, "B");
    assert_eq!(m.prepared_by, "C");
}

#[test]
fn a_key_declared_once_has_all_that_stands_behind_its_colon() {
    let m = parse_metadata("note\ntitle: Quarterly audit, 2nd draft \nother:x");
    assert_eq!(m.title, " Quarterly audit, 2nd draft ");
    assert_eq!(m.prepared_for, NO_PREPARED_FOR);
}

#[test]
fn lines_without_a_colon_are_passed_over() {
    let m = parse_metadata("title\nprepared_for\n\njust some words\nprepared_by");
    assert_eq!(m.title, NO_TITLE);
    assert_eq!(m.prepared_for, NO_PREPARED_FOR);
    assert_eq!(m.prepared_by, NO_PREPARED_BY);
    let with = parse_metadata("title:A\nno colon here\nprepared_by:B");
    let without = parse_metadata("title:A\nprepared_by:B");
    assert_eq!(with.title, without.title);
    assert_eq!(with.prepared_for, without.prepared_for);
    assert_eq!(with.prepared_by, without.prepared_by);
}

#[test]
fn unknown_keys_are_passed_over() {
    let m = parse_metadata("author:Me\nTitle:Upper\n title:spaced\ntitle :spaced\ntitles:plural\n:nothing");
    assert_eq!(m.title, NO_TITLE);
    assert_eq!(m.prepared_for, NO_PREPARED_FOR);
    assert_eq!(m.prepared_by, NO_PREPARED_BY);
}

#[test]
fn a_value_ends_before_a_second_colon() {
    let m = parse_metadata("title:Acme: the report\nprepared_for:a:b:c\nprepared_by::x");
    assert_eq!(m.title, "Acme");
    assert_eq!(m.prepared_for, "a");
    assert_eq!(m.prepared_by, "");
}

#[test]
fn an_empty_value_is_a_value() {
    let m = parse_metadata("title:\nprepared_for:x");
    assert_eq!(m.title, "");
    assert_eq!(m.prepared_for, "x");
}

#[test]
fn the_last_declaration_of_a_key_counts() {
    let m = parse_metadata("title:first\nprepared_by:x\ntitle:second\ntitle");
    assert_eq!(m.title, "second");
    assert_eq!(m.prepared_by, "x");
}

#[test]
fn values_are_not_trimmed() {
    let m = parse_metadata("title:  two spaces\t\nprepared_for: \n");
    assert_eq!(m.title, "  two spaces\t");
    assert_eq!(m.prepared_for, " ");
}

#[test]
fn a_carriage_return_before_a_line_feed_is_not_part_of_the_value() {
    let m = parse_metadata("title:Acme Report\r\nprepared_for:Acme Co\r\nprepared_by:Me\r");
    assert_eq!(m.title, "Acme Report");
    assert_eq!(m.prepared_for, "Acme Co");
    assert_eq!(m.prepared_by, "Me\r");
}

#[test]
fn values_may_hold_any_characters_but_colons() {
    let m = parse_metadata("title:R\u{e9}sum\u{e9} {{ date }} \u{2603}");
    assert_eq!(m.title, "R\u{e9}sum\u{e9} {{ date }} \u{2603}");
}

#[test]
fn parse_metadata_over_keeps_the_given_defaults() {
    let defaults = Metadata {
        title: "T".to_string(),
        prepared_for: "F".to_string(),
        prepared_by: "B".to_string(),
    };
    let m = parse_metadata_over("prepared_for:Acme Co\nnothing", defaults);
    assert_eq!(m.title, "T");
    assert_eq!(m.prepared_for, "Acme Co");
    assert_eq!(m.prepared_by, "B");
}

#[test]
fn parse_metadata_agrees_with_splitting_each_line_at_colons() {
    let texts = [
        "title:Acme Report\nprepared_for:Acme Co",
        "title:a:b\ntitle\nprepared_by:x:y:z\r\nprepared_for::",
        "x\n:\n::\ntitle:\n",
        "prepared_by:one\nprepared_by:two\nprepared_by",
    ];
    for text in texts {
        let mut title = NO_TITLE;
        let mut prepared_for = NO_PREPARED_FOR;
        let mut prepared_by = NO_PREPARED_BY;
        for line in text.lines() {
            let split: Vec<&str> = line.split(':').collect();
            if split.len() < 2 {
                continue;
            }
            match split[0] {
                "title" => title = split[1],
                "prepared_for" => prepared_for = split[1],
                "prepared_by" => prepared_by = split[1],
                _ => (),
            }
        }
        let m = parse_metadata(text);
        assert_eq!(m.title, title);
        assert_eq!(m.prepared_for, prepared_for);
        assert_eq!(m.prepared_by, prepared_by);
    }
}
