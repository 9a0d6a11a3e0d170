//! Templates by their parts: what a well-made template becomes when it is
//! assembled.
//!
//! A template is well made when it consists of plain text, which holds no
//! opening brace, and of placeholders between the texts.  The values are
//! harmless when they hold no two opening braces in a row and do not end in
//! one.  Assembling such a template with such values puts each value in the
//! place of its placeholders and changes nothing else: no replacement looks
//! into what another one put in.

use crate::assemble::{assembled, placeholder, substituted, Field};
use crate::date::{is_day_text, is_long_date, is_year_text, long_date, month_name};
use crate::metadata::MetadataView;
use crate::text::{
    cannot_start, differs_from, is_digit, is_number, lemma_replace_at_start,
    lemma_replace_skips,
};
use vstd::prelude::*;

verus! {

/// A part of a template: text that stands as it is, or the place of a value.
pub enum Part {
    Text(Seq<char>),
    Hole(Field),
}

/// The values that a template is assembled with.
pub struct Values {
    pub metadata: MetadataView,
    pub date: Seq<char>,
    pub sections: Seq<char>,
    pub findings: Seq<char>,
}

impl Values {
    /// The value of a field.
    pub open spec fn of(self, field: Field) -> Seq<char> {
        match field {
            Field::Title => self.metadata.title,
            Field::Date => self.date,
            Field::PreparedFor => self.metadata.prepared_for,
            Field::PreparedBy => self.metadata.prepared_by,
            Field::Sections => self.sections,
            Field::Findings => self.findings,
        }
    }
}

/// Whether the text holds no opening brace.
pub open spec fn has_no_opening_brace(text: Seq<char>) -> bool {
    forall|i: int| 0 <= i < text.len() ==> #[trigger] text[i] != '{'
}

/// Whether the part, where it is text, holds no opening brace.
pub open spec fn is_plain(part: Part) -> bool {
    match part {
        Part::Text(text) => has_no_opening_brace(text),
        Part::Hole(_) => true,
    }
}

/// Whether every opening brace of the value is followed by a character that
/// is no opening brace.
pub open spec fn is_harmless(value: Seq<char>) -> bool {
    forall|i: int|
        0 <= i < value.len() && #[trigger] value[i] == '{' ==> i + 1 < value.len() && value[i + 1]
            != '{'
}

/// A part as it stands once the fields with a rank below `filled` have had
/// their turn: those have their values, the others their placeholders.
pub open spec fn shown(part: Part, values: Values, filled: int) -> Seq<char> {
    match part {
        Part::Text(text) => text,
        Part::Hole(field) => if field.rank() < filled {
            values.of(field)
        } else {
            placeholder(field.name())
        },
    }
}

/// The parts one after another, as they stand once the fields with a rank
/// below `filled` have had their turn.
pub open spec fn text_of(parts: Seq<Part>, values: Values, filled: int) -> Seq<char>
    decreases parts.len(),
{
    if parts.len() == 0 {
        Seq::empty()
    } else {
        shown(parts.first(), values, filled) + text_of(parts.drop_first(), values, filled)
    }
}

/// The template that the parts make: every hole stands as its placeholder.
pub open spec fn template_of(parts: Seq<Part>) -> Seq<char>
    decreases parts.len(),
{
    if parts.len() == 0 {
        Seq::empty()
    } else {
        (match parts.first() {
            Part::Text(text) => text,
            Part::Hole(field) => placeholder(field.name()),
        }) + template_of(parts.drop_first())
    }
}

/// The document that the parts make with these values: every hole stands as
/// its value.
pub open spec fn document_of(parts: Seq<Part>, values: Values) -> Seq<char>
    decreases parts.len(),
{
    if parts.len() == 0 {
        Seq::empty()
    } else {
        (match parts.first() {
            Part::Text(text) => text,
            Part::Hole(field) => values.of(field),
        }) + document_of(parts.drop_first(), values)
    }
}

/// Before any field has had its turn the parts make the template, and after
/// all six they make the document.
proof fn lemma_first_and_last(parts: Seq<Part>, values: Values)
    ensures
        text_of(parts, values, 0) == template_of(parts),
        text_of(parts, values, 6) == document_of(parts, values),
    decreases parts.len(),
{
    if parts.len() > 0 {
        lemma_first_and_last(parts.drop_first(), values);
    }
}

/// No name holds an opening brace.
proof fn lemma_names_are_plain(field: Field)
    ensures
        forall|k: int| 0 <= k < field.name().len() ==> #[trigger] field.name()[k] != '{',
        1 <= field.name().len() <= 12,
{
    reveal_strlit("report_title");
    reveal_strlit("date");
    reveal_strlit("prepared_for");
    reveal_strlit("prepared_by");
    reveal_strlit("sections");
    reveal_strlit("findings");
    let name = field.name();
    assert forall|k: int| 0 <= k < name.len() implies #[trigger] name[k] != '{' by {
        assert(k == 0 || k == 1 || k == 2 || k == 3 || k == 4 || k == 5 || k == 6 || k == 7 || k
            == 8 || k == 9 || k == 10 || k == 11);
    }
}

/// A placeholder starts with two opening braces and a space, then comes the
/// name, and nothing behind the two braces is an opening brace.
proof fn lemma_placeholder_shape(field: Field)
    ensures
        placeholder(field.name()).len() == field.name().len() + 6,
        placeholder(field.name())[0] == '{',
        placeholder(field.name())[1] == '{',
        forall|k: int|
            2 <= k < placeholder(field.name()).len() ==> #[trigger] placeholder(field.name())[k]
                != '{',
        forall|k: int|
            0 <= k < field.name().len() ==> placeholder(field.name())[k + 3]
                == #[trigger] field.name()[k],
{
    reveal_strlit("{{ ");
    reveal_strlit(" }}");
    lemma_names_are_plain(field);
}

/// No placeholder can start inside the placeholder of another field.
proof fn lemma_placeholders_apart(inside: Field, other: Field)
    requires
        inside != other,
    ensures
        cannot_start(placeholder(inside.name()), placeholder(other.name())),
{
    lemma_placeholder_shape(inside);
    lemma_placeholder_shape(other);
    reveal_strlit("report_title");
    reveal_strlit("date");
    reveal_strlit("prepared_for");
    reveal_strlit("prepared_by");
    reveal_strlit("sections");
    reveal_strlit("findings");
    let token = placeholder(inside.name());
    let pattern = placeholder(other.name());
    assert forall|i: int| 0 <= i < token.len() implies differs_from(
        #[trigger] token.skip(i),
        pattern,
    ) by {
        let from = token.skip(i);
        if i == 0 {
            if inside.name()[0] == other.name()[0] {
                assert(token[12] == inside.name()[9]);
                assert(pattern[12] == other.name()[9]);
                assert(from[12] != pattern[12]);
            } else {
                assert(from[3] != pattern[3]);
            }
        } else if i == 1 {
            assert(from[1] != pattern[1]);
        } else {
            assert(from[0] != pattern[0]);
        }
    }
}

/// No placeholder can start inside a text without an opening brace.
proof fn lemma_plain_text_is_skipped(text: Seq<char>, field: Field)
    requires
        has_no_opening_brace(text),
    ensures
        cannot_start(text, placeholder(field.name())),
{
    lemma_placeholder_shape(field);
    let pattern = placeholder(field.name());
    assert forall|i: int| 0 <= i < text.len() implies differs_from(
        #[trigger] text.skip(i),
        pattern,
    ) by {
        assert(text.skip(i)[0] != pattern[0]);
    }
}

/// No placeholder can start inside a harmless value.
proof fn lemma_harmless_value_is_skipped(value: Seq<char>, field: Field)
    requires
        is_harmless(value),
    ensures
        cannot_start(value, placeholder(field.name())),
{
    lemma_placeholder_shape(field);
    let pattern = placeholder(field.name());
    assert forall|i: int| 0 <= i < value.len() implies differs_from(
        #[trigger] value.skip(i),
        pattern,
    ) by {
        let from = value.skip(i);
        if value[i] == '{' {
            assert(from[1] != pattern[1]);
        } else {
            assert(from[0] != pattern[0]);
        }
    }
}

/// The turn of one field puts its value in the place of its placeholders and
/// changes nothing else.
proof fn lemma_turn(parts: Seq<Part>, values: Values, field: Field)
    requires
        forall|i: int| 0 <= i < parts.len() ==> is_plain(#[trigger] parts[i]),
        forall|other: Field| is_harmless(#[trigger] values.of(other)),
    ensures
        substituted(text_of(parts, values, field.rank()), field.name(), values.of(field))
            == text_of(parts, values, field.rank() + 1),
    decreases parts.len(),
{
    let pattern = placeholder(field.name());
    let with = values.of(field);
    let turn = field.rank();
    lemma_placeholder_shape(field);
    if parts.len() > 0 {
        let head = parts.first();
        let tail = parts.drop_first();
        lemma_turn(tail, values, field);
        let rest = text_of(tail, values, turn);
        match head {
            Part::Text(text) => {
                lemma_plain_text_is_skipped(text, field);
                lemma_replace_skips(text, rest, pattern, with);
            },
            Part::Hole(other) => {
                if other == field {
                    lemma_replace_at_start(pattern, rest, with);
                } else if other.rank() < turn {
                    lemma_harmless_value_is_skipped(values.of(other), field);
                    lemma_replace_skips(values.of(other), rest, pattern, with);
                } else {
                    lemma_placeholders_apart(other, field);
                    lemma_replace_skips(placeholder(other.name()), rest, pattern, with);
                }
            },
        }
    }
}

/// A template of plain texts and placeholders, assembled with harmless
/// values, is the same texts with each value in the place of its
/// placeholders.
pub proof fn law_template_is_filled(parts: Seq<Part>, values: Values)
    requires
        forall|i: int| 0 <= i < parts.len() ==> is_plain(#[trigger] parts[i]),
        forall|field: Field| is_harmless(#[trigger] values.of(field)),
    ensures
        assembled(
            template_of(parts),
            values.metadata,
            values.date,
            values.sections,
            values.findings,
        ) == document_of(parts, values),
{
    lemma_first_and_last(parts, values);
    lemma_turn(parts, values, Field::Title);
    lemma_turn(parts, values, Field::Date);
    lemma_turn(parts, values, Field::PreparedFor);
    lemma_turn(parts, values, Field::PreparedBy);
    lemma_turn(parts, values, Field::Sections);
    lemma_turn(parts, values, Field::Findings);
}

/// Two texts without an opening brace make one without an opening brace.
proof fn lemma_no_opening_brace_in_both(first: Seq<char>, second: Seq<char>)
    requires
        has_no_opening_brace(first),
        has_no_opening_brace(second),
    ensures
        has_no_opening_brace(first + second),
{
}

/// No month's name holds an opening brace.
proof fn lemma_month_names_are_plain(month: int)
    ensures
        has_no_opening_brace(month_name(month)),
{
    reveal_strlit("January");
    reveal_strlit("February");
    reveal_strlit("March");
    reveal_strlit("April");
    reveal_strlit("May");
    reveal_strlit("June");
    reveal_strlit("July");
    reveal_strlit("August");
    reveal_strlit("September");
    reveal_strlit("October");
    reveal_strlit("November");
    reveal_strlit("December");
    let name = month_name(month);
    assert forall|k: int| 0 <= k < name.len() implies #[trigger] name[k] != '{' by {
        assert(k == 0 || k == 1 || k == 2 || k == 3 || k == 4 || k == 5 || k == 6 || k == 7 || k
            == 8);
    }
}

/// A date holds no opening brace, and so is a harmless value: the date of
/// today never disturbs a template.
pub proof fn law_date_is_harmless(date: Seq<char>)
    requires
        is_long_date(date),
    ensures
        has_no_opening_brace(date),
        is_harmless(date),
{
    let (month, day, year) = choose|month: int, day: Seq<char>, year: Seq<char>|
        1 <= month <= 12 && is_day_text(day) && is_year_text(year) && date == #[trigger] long_date(
            month_name(month),
            day,
            year,
        );
    reveal_strlit(" ");
    reveal_strlit(", ");
    lemma_month_names_are_plain(month);
    assert forall|k: int| 0 <= k < year.len() implies #[trigger] year[k] != '{' by {
        if !(year.len() == 4 && is_number(year)) && k > 0 {
            assert(is_digit(year.skip(1)[k - 1]));
        }
    }
    lemma_no_opening_brace_in_both(month_name(month), " "@);
    lemma_no_opening_brace_in_both(month_name(month) + " "@, day);
    lemma_no_opening_brace_in_both(month_name(month) + " "@ + day, ", "@);
    lemma_no_opening_brace_in_both(month_name(month) + " "@ + day + ", "@, year);
}

} // verus!
