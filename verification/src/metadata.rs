//! Report metadata: the title and the two parties of a report, read from a
//! text of `key:value` declarations, one on each line.
//!
//! A line declares a key when it holds a colon: the key is what stands before
//! the first colon, the value what stands between the first colon and the
//! second, or the end of the line.  Nothing is trimmed and nothing escaped.
//! Lines without a colon and lines with any other key are passed over.  Where
//! several lines declare one key the last one counts, and a key that no line
//! declares keeps the value it had before.

use crate::text::{
    copy_range, find_char, first_index_of, lemma_first_index_contains, lemma_first_index_of,
    lines_of, occurs_at, split_lines, texts_of, to_chars, to_text,
};
use vstd::prelude::*;

verus! {

/// The metadata of a report.
#[derive(Debug, Clone)]
pub struct Metadata {
    pub title: String,
    pub prepared_for: String,
    pub prepared_by: String,
}

/// What a `Metadata` stands for: its three texts.
pub struct MetadataView {
    pub title: Seq<char>,
    pub prepared_for: Seq<char>,
    pub prepared_by: Seq<char>,
}

impl View for Metadata {
    type V = MetadataView;

    open spec fn view(&self) -> MetadataView {
        MetadataView {
            title: self.title@,
            prepared_for: self.prepared_for@,
            prepared_by: self.prepared_by@,
        }
    }
}

/// The key that declares the title.
pub open spec fn title_key() -> Seq<char> {
    "title"@
}

/// The key that declares whom the report is prepared for.
pub open spec fn prepared_for_key() -> Seq<char> {
    "prepared_for"@
}

/// The key that declares who prepared the report.
pub open spec fn prepared_by_key() -> Seq<char> {
    "prepared_by"@
}

/// The metadata of a report of which nothing is declared yet.
pub open spec fn placeholders() -> MetadataView {
    MetadataView {
        title: "[REPORT TITLE - CHANGE ME]"@,
        prepared_for: "[PREPARED FOR - CHANGE ME]"@,
        prepared_by: "[PREPARED BY - CHANGE ME]"@,
    }
}

/// Whether the line holds a colon, and so declares something.
pub open spec fn is_declaration(line: Seq<char>) -> bool {
    first_index_of(line, ':') < line.len()
}

/// What stands before the first colon of the line.
pub open spec fn declared_key(line: Seq<char>) -> Seq<char> {
    line.take(first_index_of(line, ':'))
}

/// What stands behind the first colon of the line.
pub open spec fn after_first_colon(line: Seq<char>) -> Seq<char> {
    line.skip(first_index_of(line, ':') + 1)
}

/// What stands between the first colon of the line and the second, or the
/// end of the line where there is no second.
pub open spec fn declared_value(line: Seq<char>) -> Seq<char> {
    after_first_colon(line).take(first_index_of(after_first_colon(line), ':'))
}

/// Whether the line declares `key`.
pub open spec fn declares(line: Seq<char>, key: Seq<char>) -> bool {
    is_declaration(line) && declared_key(line) == key
}

/// The value of the last of `lines` that declares `key`, or `default` where
/// none does.
pub open spec fn last_declared(lines: Seq<Seq<char>>, key: Seq<char>, default: Seq<char>) -> Seq<
    char,
>
    decreases lines.len(),
{
    if lines.len() == 0 {
        default
    } else if declares(lines.last(), key) {
        declared_value(lines.last())
    } else {
        last_declared(lines.drop_last(), key, default)
    }
}

/// The value that `text` gives to `key`, or `default` where it gives none.
pub open spec fn declared_in(text: Seq<char>, key: Seq<char>, default: Seq<char>) -> Seq<char> {
    last_declared(lines_of(text), key, default)
}

/// The metadata that `text` declares over `defaults`.
pub open spec fn metadata_of(text: Seq<char>, defaults: MetadataView) -> MetadataView {
    MetadataView {
        title: declared_in(text, title_key(), defaults.title),
        prepared_for: declared_in(text, prepared_for_key(), defaults.prepared_for),
        prepared_by: declared_in(text, prepared_by_key(), defaults.prepared_by),
    }
}

/// No two of the three keys are the same.
pub proof fn lemma_keys_differ()
    ensures
        title_key() != prepared_for_key(),
        title_key() != prepared_by_key(),
        prepared_for_key() != prepared_by_key(),
{
    reveal_strlit("title");
    reveal_strlit("prepared_for");
    reveal_strlit("prepared_by");
    assert(prepared_for_key().len() == 12);
    assert(prepared_by_key().len() == 11);
}

impl Default for Metadata {
    /// The metadata of a report of which nothing is declared yet.
    fn default() -> (m: Metadata)
        ensures
            m@ == placeholders(),
    {
        Metadata {
            title: "[REPORT TITLE - CHANGE ME]".to_owned(),
            prepared_for: "[PREPARED FOR - CHANGE ME]".to_owned(),
            prepared_by: "[PREPARED BY - CHANGE ME]".to_owned(),
        }
    }
}

/// Reads the metadata that `text` declares; what it does not declare is a
/// placeholder that asks to be changed.
pub fn parse_metadata(text: &str) -> (m: Metadata)
    ensures
        m@ == metadata_of(text@, placeholders()),
{
    parse_metadata_over(text, Metadata::default())
}

/// Reads the metadata that `text` declares; what it does not declare is as
/// in `defaults`.
pub fn parse_metadata_over(text: &str, defaults: Metadata) -> (m: Metadata)
    ensures
        m@ == metadata_of(text@, defaults@),
{
    let chars = to_chars(text);
    let lines = split_lines(&chars);
    let title = to_chars("title");
    let prepared_for = to_chars("prepared_for");
    let prepared_by = to_chars("prepared_by");
    let ghost before = defaults@;
    let ghost all = texts_of(lines@);
    let mut m = defaults;
    let mut i: usize = 0;
    while i < lines.len()
        invariant
            i <= lines.len(),
            all == texts_of(lines@),
            title@ == title_key(),
            prepared_for@ == prepared_for_key(),
            prepared_by@ == prepared_by_key(),
            m.title@ == last_declared(all.take(i as int), title_key(), before.title),
            m.prepared_for@ == last_declared(
                all.take(i as int),
                prepared_for_key(),
                before.prepared_for,
            ),
            m.prepared_by@ == last_declared(
                all.take(i as int),
                prepared_by_key(),
                before.prepared_by,
            ),
        decreases lines.len() - i,
    {
        let line = lines[i].as_slice();
        proof {
            assert(all.take(i + 1).drop_last() == all.take(i as int));
            assert(line@.skip(0) == line@);
            lemma_keys_differ();
        }
        let colon = find_char(line, 0, ':');
        if colon < line.len() {
            let end = find_char(line, colon + 1, ':');
            if colon == title.len() && occurs_at(line, 0, title.as_slice()) {
                m.title = to_text(copy_range(line, colon + 1, end).as_slice());
            } else if colon == prepared_for.len() && occurs_at(line, 0, prepared_for.as_slice()) {
                m.prepared_for = to_text(copy_range(line, colon + 1, end).as_slice());
            } else if colon == prepared_by.len() && occurs_at(line, 0, prepared_by.as_slice()) {
                m.prepared_by = to_text(copy_range(line, colon + 1, end).as_slice());
            }
        }
        i += 1;
    }
    proof {
        assert(all.take(lines.len() as int) == all);
    }
    m
}

/// A key that no line declares keeps its default.
pub proof fn lemma_undeclared_key(lines: Seq<Seq<char>>, key: Seq<char>, default: Seq<char>)
    requires
        forall|j: int| 0 <= j < lines.len() ==> !declares(#[trigger] lines[j], key),
    ensures
        last_declared(lines, key, default) == default,
    decreases lines.len(),
{
    if lines.len() > 0 {
        lemma_undeclared_key(lines.drop_last(), key, default);
    }
}

/// Where line `i` declares `key` and no line behind it does, the value is
/// the one that line `i` declares.
pub proof fn lemma_last_declaration(
    lines: Seq<Seq<char>>,
    key: Seq<char>,
    default: Seq<char>,
    i: int,
)
    requires
        0 <= i < lines.len(),
        declares(lines[i], key),
        forall|j: int| i < j < lines.len() ==> !declares(#[trigger] lines[j], key),
    ensures
        last_declared(lines, key, default) == declared_value(lines[i]),
    decreases lines.len(),
{
    if i < lines.len() - 1 {
        lemma_last_declaration(lines.drop_last(), key, default, i);
    }
}

/// A line without a colon changes nothing, wherever it stands.
pub proof fn lemma_line_without_colon(
    before: Seq<Seq<char>>,
    line: Seq<char>,
    behind: Seq<Seq<char>>,
    key: Seq<char>,
    default: Seq<char>,
)
    requires
        !line.contains(':'),
    ensures
        last_declared(before + seq![line] + behind, key, default) == last_declared(
            before + behind,
            key,
            default,
        ),
    decreases behind.len(),
{
    lemma_first_index_contains(line, ':');
    let with = before + seq![line] + behind;
    let without = before + behind;
    if behind.len() == 0 {
        assert(with.drop_last() == before);
    } else {
        assert(with.drop_last() == before + seq![line] + behind.drop_last());
        assert(without.drop_last() == before + behind.drop_last());
        lemma_line_without_colon(before, line, behind.drop_last(), key, default);
    }
}

/// A key that is declared exactly once, on a line with a single colon, has
/// as its value all that stands behind that colon, unchanged.
///
/// With a second colon on the line the value ends before it, so such lines
/// are left out here.
pub proof fn law_declared_once(text: Seq<char>, key: Seq<char>, default: Seq<char>, i: int)
    requires
        0 <= i < lines_of(text).len(),
        declares(lines_of(text)[i], key),
        forall|j: int|
            0 <= j < lines_of(text).len() && j != i ==> !declares(
                #[trigger] lines_of(text)[j],
                key,
            ),
        !after_first_colon(lines_of(text)[i]).contains(':'),
    ensures
        declared_in(text, key, default) == after_first_colon(lines_of(text)[i]),
{
    let line = lines_of(text)[i];
    lemma_last_declaration(lines_of(text), key, default, i);
    lemma_first_index_contains(after_first_colon(line), ':');
    lemma_first_index_of(after_first_colon(line), ':');
}

/// A key that no line of the text declares keeps its default; lines without
/// a colon declare nothing.
pub proof fn law_unseen_key_keeps_default(text: Seq<char>, key: Seq<char>, default: Seq<char>)
    requires
        forall|j: int|
            0 <= j < lines_of(text).len() && (#[trigger] lines_of(text)[j]).contains(':')
                ==> declared_key(lines_of(text)[j]) != key,
    ensures
        declared_in(text, key, default) == default,
{
    let lines = lines_of(text);
    assert forall|j: int| 0 <= j < lines.len() implies !declares(#[trigger] lines[j], key) by {
        lemma_first_index_contains(lines[j], ':');
    }
    lemma_undeclared_key(lines, key, default);
}

/// Two texts that differ by one line without a colon declare the same
/// metadata.
pub proof fn law_line_without_colon_is_ignored(
    with: Seq<char>,
    without: Seq<char>,
    before: Seq<Seq<char>>,
    line: Seq<char>,
    behind: Seq<Seq<char>>,
    defaults: MetadataView,
)
    requires
        !line.contains(':'),
        lines_of(with) == before + seq![line] + behind,
        lines_of(without) == before + behind,
    ensures
        metadata_of(with, defaults) == metadata_of(without, defaults),
{
    lemma_line_without_colon(before, line, behind, title_key(), defaults.title);
    lemma_line_without_colon(before, line, behind, prepared_for_key(), defaults.prepared_for);
    lemma_line_without_colon(before, line, behind, prepared_by_key(), defaults.prepared_by);
}

} // verus!
