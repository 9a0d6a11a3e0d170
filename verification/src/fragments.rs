//! Numbered fragments: the sections and the findings of a report.
//!
//! Each category has a directory of its own.  A file of it is named by its
//! ordinal, a dot, and whatever else: the ordinal says where in the category
//! the fragment stands, counted from one.  A category with `n` files has `n`
//! slots; each file's body, behind a page break, goes to the slot of its
//! ordinal, and the slots are joined by line feeds.  A file whose name does
//! not start with a number, or whose ordinal has no slot, is an error.  Of two
//! files with one ordinal the one listed later stays, and a slot that no file
//! asks for stays empty.

use crate::text::{
    find_char, first_index_of, is_digit, is_number, join_with, lemma_number_of_prefix, number_of,
    to_chars,
};
use vstd::prelude::*;
use vstd::string::StringExecFns;

verus! {

/// The two categories of fragment.
#[derive(Debug, Clone, Copy, PartialEq, Eq, Structural)]
pub enum Category {
    Section,
    Finding,
}

impl Category {
    /// The name of the category's directory.
    pub open spec fn directory_name(self) -> Seq<char> {
        match self {
            Category::Section => "sections"@,
            Category::Finding => "findings"@,
        }
    }

    /// The name of the category's directory.
    pub fn directory(&self) -> (name: &'static str)
        ensures
            name@ == self.directory_name(),
    {
        match self {
            Category::Section => "sections",
            Category::Finding => "findings",
        }
    }
}

/// Why a file cannot be placed.
#[derive(Debug, Clone, Copy, PartialEq, Eq, Structural)]
pub enum CollectError {
    /// The file's name does not start with a number that fits the machine.
    InvalidOrdinal,
    /// The file's ordinal is zero or above the number of slots.
    OrdinalOutOfRange,
}

/// A file of a category's directory: its name and what it holds.
#[derive(Debug, Clone)]
pub struct FragmentFile {
    pub name: String,
    pub body: String,
}

/// What a `FragmentFile` stands for: its two texts.
pub struct FragmentFileView {
    pub name: Seq<char>,
    pub body: Seq<char>,
}

impl View for FragmentFile {
    type V = FragmentFileView;

    open spec fn view(&self) -> FragmentFileView {
        FragmentFileView { name: self.name@, body: self.body@ }
    }
}

/// What a list of files stands for.
pub open spec fn files_of(files: Seq<FragmentFile>) -> Seq<FragmentFileView> {
    Seq::new(files.len(), |i: int| files[i]@)
}

/// What stands before the first dot of a file name; the whole name where it
/// holds no dot.
pub open spec fn ordinal_text(name: Seq<char>) -> Seq<char> {
    name.take(first_index_of(name, '.'))
}

/// The text without the plus sign that may lead a number.
pub open spec fn without_plus(text: Seq<char>) -> Seq<char> {
    if text.len() > 0 && text[0] == '+' {
        text.skip(1)
    } else {
        text
    }
}

/// The ordinal that a file name starts with: digits, with or without a plus
/// sign before them, that write a number which fits the machine.
pub open spec fn ordinal_of(name: Seq<char>) -> Option<int> {
    let digits = without_plus(ordinal_text(name));
    if is_number(digits) && number_of(digits) <= usize::MAX {
        Some(number_of(digits))
    } else {
        None
    }
}

/// The page break that stands before every fragment.
pub open spec fn page_break() -> Seq<char> {
    "\n#pagebreak()\n"@
}

/// A fragment's body as it stands in the document: behind a page break.
pub open spec fn page_of(body: Seq<char>) -> Seq<char> {
    page_break() + body
}

/// What separates the slots in the joined text.
pub open spec fn slot_separator() -> Seq<char> {
    "\n"@
}

/// The slot that a file of this name goes to among `count` slots, or why it
/// goes to none.
pub open spec fn placement(count: nat, name: Seq<char>) -> Result<int, CollectError> {
    match ordinal_of(name) {
        None => Err(CollectError::InvalidOrdinal),
        Some(ordinal) => if 1 <= ordinal <= count {
            Ok(ordinal - 1)
        } else {
            Err(CollectError::OrdinalOutOfRange)
        },
    }
}

/// The error of the first of `files` that cannot be placed among `count`
/// slots, if there is one.
pub open spec fn first_error(files: Seq<FragmentFileView>, count: nat) -> Option<CollectError>
    decreases files.len(),
{
    if files.len() == 0 {
        None
    } else {
        match first_error(files.drop_last(), count) {
            Some(error) => Some(error),
            None => match placement(count, files.last().name) {
                Err(error) => Some(error),
                Ok(_) => None,
            },
        }
    }
}

/// What slot `index` holds once all of `files` are placed: the page of the
/// last file whose ordinal is `index + 1`, or nothing where there is none.
pub open spec fn slot_text(files: Seq<FragmentFileView>, index: int) -> Seq<char>
    decreases files.len(),
{
    if files.len() == 0 {
        Seq::empty()
    } else if ordinal_of(files.last().name) == Some(index + 1) {
        page_of(files.last().body)
    } else {
        slot_text(files.drop_last(), index)
    }
}

/// The slots of a category with these files: as many as there are files.
pub open spec fn slots_of(files: Seq<FragmentFileView>) -> Seq<Seq<char>> {
    Seq::new(files.len(), |index: int| slot_text(files, index))
}

/// Whether no two of the files have the same ordinal.
pub open spec fn has_distinct_ordinals(files: Seq<FragmentFileView>) -> bool {
    forall|i: int, j: int|
        0 <= i < j < files.len() ==> ordinal_of((#[trigger] files[i]).name) != ordinal_of(
            (#[trigger] files[j]).name,
        )
}

/// The pages of the files one after another as they are listed, with a line
/// feed between each two.
pub open spec fn join_with_pages(files: Seq<FragmentFileView>) -> Seq<char> {
    join_with(Seq::new(files.len(), |i: int| page_of(files[i].body)), slot_separator())
}

/// The joined text of a category with these files, or the error of the first
/// file that cannot be placed.
pub open spec fn collected(files: Seq<FragmentFileView>) -> Result<Seq<char>, CollectError> {
    match first_error(files, files.len()) {
        Some(error) => Err(error),
        None => Ok(join_with(slots_of(files), slot_separator())),
    }
}

/// Reads the ordinal that a file name starts with.
pub fn parse_ordinal(name: &str) -> (ordinal: Option<usize>)
    ensures
        match ordinal {
            Some(n) => ordinal_of(name@) == Some(n as int),
            None => ordinal_of(name@) is None,
        },
{
    let chars = to_chars(name);
    assert(chars@.skip(0) == chars@);
    let dot = find_char(chars.as_slice(), 0, '.');
    let start: usize = if dot > 0 && chars[0] == '+' {
        1
    } else {
        0
    };
    let ghost digits = chars@.subrange(start as int, dot as int);
    if start == dot {
        return None;
    }
    let mut value: usize = 0;
    let mut i: usize = start;
    while i < dot
        invariant
            start <= i <= dot <= chars.len(),
            digits == chars@.subrange(start as int, dot as int),
            digits == without_plus(ordinal_text(name@)),
            forall|j: int| 0 <= j < i - start ==> is_digit(#[trigger] digits[j]),
            value == number_of(digits.take(i - start)),
        decreases dot - i,
    {
        let c = chars[i];
        if c < '0' || c > '9' {
            assert(!is_digit(digits[i - start]));
            return None;
        }
        let digit: usize = (c as u32 - '0' as u32) as usize;
        assert(digits.take(i - start + 1).drop_last() == digits.take(i - start));
        if value > (usize::MAX - digit) / 10 {
            proof {
                if is_number(digits) {
                    lemma_number_of_prefix(digits, i - start + 1);
                }
            }
            return None;
        }
        value = value * 10 + digit;
        i += 1;
    }
    assert(digits.take(dot - start) == digits);
    Some(value)
}

/// The slots of one category while its files are placed.
pub struct Collector {
    slots: Vec<String>,
}

impl View for Collector {
    type V = Seq<Seq<char>>;

    /// The text of each slot.
    closed spec fn view(&self) -> Seq<Seq<char>> {
        Seq::new(self.slots@.len(), |i: int| self.slots@[i]@)
    }
}

impl Collector {
    /// As many empty slots as the category has files.
    pub fn new(count: usize) -> (collector: Collector)
        ensures
            collector@ == Seq::new(count as nat, |i: int| Seq::<char>::empty()),
    {
        let mut slots: Vec<String> = Vec::new();
        while slots.len() < count
            invariant
                slots.len() <= count,
                forall|i: int| 0 <= i < slots.len() ==> (#[trigger] slots@[i])@ == Seq::<
                    char,
                >::empty(),
            decreases count - slots.len(),
        {
            slots.push(String::new());
        }
        Collector { slots }
    }

    /// The number of slots.
    pub fn len(&self) -> (count: usize)
        ensures
            count == self@.len(),
    {
        self.slots.len()
    }

    /// Puts the page of a file into the slot of its ordinal.  A file that
    /// cannot be placed leaves the slots as they are.
    pub fn place(&mut self, name: &str, body: &str) -> (placed: Result<(), CollectError>)
        ensures
            match placement(old(self)@.len(), name@) {
                Ok(index) => placed is Ok && final(self)@ == old(self)@.update(
                    index,
                    page_of(body@),
                ),
                Err(error) => placed == Err::<(), CollectError>(error) && final(self)@ == old(
                    self,
                )@,
            },
    {
        match parse_ordinal(name) {
            None => Err(CollectError::InvalidOrdinal),
            Some(ordinal) => {
                if ordinal == 0 || ordinal > self.slots.len() {
                    Err(CollectError::OrdinalOutOfRange)
                } else {
                    let mut page = String::from_str("\n#pagebreak()\n");
                    page.append(body);
                    self.slots.set(ordinal - 1, page);
                    Ok(())
                }
            },
        }
    }

    /// The slots one after another, with a line feed between each two.
    pub fn join(&self) -> (joined: String)
        ensures
            joined@ == join_with(self@, slot_separator()),
    {
        let mut joined = String::new();
        let mut i: usize = 0;
        while i < self.slots.len()
            invariant
                i <= self.slots.len(),
                joined@ == join_with(self@.take(i as int), slot_separator()),
            decreases self.slots.len() - i,
        {
            if i > 0 {
                joined.append("\n");
            }
            joined.append(self.slots[i].as_str());
            proof {
                let parts = self@.take(i + 1);
                assert(parts.drop_last() == self@.take(i as int));
            }
            i += 1;
        }
        assert(self@.take(self.slots.len() as int) == self@);
        joined
    }
}

/// An error among the first files is the error of them all.
proof fn lemma_first_error_stays(files: Seq<FragmentFileView>, count: nat, k: int)
    requires
        0 <= k <= files.len(),
        first_error(files.take(k), count) is Some,
    ensures
        first_error(files, count) == first_error(files.take(k), count),
    decreases files.len(),
{
    if k == files.len() {
        assert(files.take(k) == files);
    } else {
        assert(files.drop_last().take(k) == files.take(k));
        lemma_first_error_stays(files.drop_last(), count, k);
    }
}

/// Places every file of a category and joins the slots.
pub fn collect_fragments(files: &Vec<FragmentFile>) -> (joined: Result<String, CollectError>)
    ensures
        match collected(files_of(files@)) {
            Ok(text) => joined matches Ok(s) && s@ == text,
            Err(error) => joined matches Err(e) && e == error,
        },
{
    let ghost all = files_of(files@);
    let count = files.len();
    let mut collector = Collector::new(count);
    let mut i: usize = 0;
    while i < files.len()
        invariant
            i <= files.len(),
            count == files.len(),
            all == files_of(files@),
            first_error(all.take(i as int), count as nat) is None,
            collector@ == Seq::new(count as nat, |index: int| slot_text(all.take(i as int), index)),
        decreases files.len() - i,
    {
        let file = &files[i];
        proof {
            assert(all.take(i + 1).drop_last() == all.take(i as int));
        }
        match collector.place(file.name.as_str(), file.body.as_str()) {
            Err(error) => {
                proof {
                    lemma_first_error_stays(all, count as nat, i + 1);
                }
                return Err(error);
            },
            Ok(()) => {
                assert(collector@ == Seq::new(
                    count as nat,
                    |index: int| slot_text(all.take(i + 1), index),
                ));
            },
        }
        i += 1;
    }
    proof {
        assert(all.take(files.len() as int) == all);
    }
    Ok(collector.join())
}

/// There is no error exactly where every file can be placed.
pub proof fn lemma_first_error_none(files: Seq<FragmentFileView>, count: nat)
    ensures
        first_error(files, count) is None <==> forall|i: int|
            0 <= i < files.len() ==> placement(count, (#[trigger] files[i]).name) is Ok,
    decreases files.len(),
{
    if files.len() > 0 {
        let front = files.drop_last();
        lemma_first_error_none(front, count);
        if first_error(files, count) is None {
            assert forall|i: int| 0 <= i < files.len() implies placement(
                count,
                (#[trigger] files[i]).name,
            ) is Ok by {
                if i < files.len() - 1 {
                    assert(front[i] == files[i]);
                }
            }
        }
        if forall|i: int|
            0 <= i < files.len() ==> placement(count, (#[trigger] files[i]).name) is Ok {
            assert forall|i: int| 0 <= i < front.len() implies placement(
                count,
                (#[trigger] front[i]).name,
            ) is Ok by {
                assert(front[i] == files[i]);
            }
        }
    }
}

/// The last of `files` whose ordinal is `index + 1`, or -1 where there is
/// none.
pub open spec fn last_with_slot(files: Seq<FragmentFileView>, index: int) -> int
    decreases files.len(),
{
    if files.len() == 0 {
        -1
    } else if ordinal_of(files.last().name) == Some(index + 1) {
        files.len() - 1
    } else {
        last_with_slot(files.drop_last(), index)
    }
}

/// A slot holds the page of the last file that asks for it, and nothing where
/// no file does.
pub proof fn lemma_slot_text(files: Seq<FragmentFileView>, index: int)
    ensures
        -1 <= last_with_slot(files, index) < files.len(),
        forall|j: int|
            last_with_slot(files, index) < j < files.len() ==> ordinal_of(
                (#[trigger] files[j]).name,
            ) != Some(index + 1),
        last_with_slot(files, index) >= 0 ==> ordinal_of(
            files[last_with_slot(files, index)].name,
        ) == Some(index + 1),
        slot_text(files, index) == if last_with_slot(files, index) >= 0 {
            page_of(files[last_with_slot(files, index)].body)
        } else {
            Seq::<char>::empty()
        },
    decreases files.len(),
{
    if files.len() > 0 && ordinal_of(files.last().name) != Some(index + 1) {
        let front = files.drop_last();
        lemma_slot_text(front, index);
        assert forall|j: int| last_with_slot(files, index) < j < files.len() implies ordinal_of(
            (#[trigger] files[j]).name,
        ) != Some(index + 1) by {
            if j < files.len() - 1 {
                assert(front[j] == files[j]);
            }
        }
    }
}

/// Where the ordinals of `n` files are the numbers from 1 to `n`, each of
/// them once, the files are collected without error, and the slots hold the
/// pages in the order of the ordinals: slot `k - 1` holds, behind a page
/// break, the body of the file whose ordinal is `k`.
pub proof fn law_dense_ordinals(files: Seq<FragmentFileView>)
    requires
        forall|i: int|
            0 <= i < files.len() ==> (ordinal_of((#[trigger] files[i]).name) matches Some(n) && 1
                <= n <= files.len()),
        has_distinct_ordinals(files),
    ensures
        collected(files) == Ok::<Seq<char>, CollectError>(
            join_with(slots_of(files), slot_separator()),
        ),
        slots_of(files).len() == files.len(),
        forall|i: int|
            0 <= i < files.len() ==> slots_of(files)[ordinal_of((#[trigger] files[i]).name).unwrap()
                - 1] == page_of(files[i].body),
{
    lemma_first_error_none(files, files.len());
    assert forall|i: int| 0 <= i < files.len() implies slots_of(files)[ordinal_of(
        (#[trigger] files[i]).name,
    ).unwrap() - 1] == page_of(files[i].body) by {
        let index = ordinal_of(files[i].name).unwrap() - 1;
        lemma_slot_text(files, index);
    }
}

/// Two lists with the same files, in whatever order, have the same members.
proof fn lemma_same_members(
    first: Seq<FragmentFileView>,
    second: Seq<FragmentFileView>,
    file: FragmentFileView,
)
    requires
        first.to_multiset() == second.to_multiset(),
        second.contains(file),
    ensures
        first.contains(file),
        first.len() == second.len(),
{
    first.to_multiset_ensures();
    second.to_multiset_ensures();
    assert(first.to_multiset().count(file) > 0);
}

/// Whether a category can be collected does not depend on the order in which
/// its files are listed.
pub proof fn law_failure_in_any_order(first: Seq<FragmentFileView>, second: Seq<FragmentFileView>)
    requires
        first.to_multiset() == second.to_multiset(),
    ensures
        collected(first) is Ok <==> collected(second) is Ok,
{
    first.to_multiset_ensures();
    second.to_multiset_ensures();
    let count = first.len();
    lemma_first_error_none(first, count);
    lemma_first_error_none(second, count);
    if first_error(first, count) is None {
        assert forall|i: int| 0 <= i < second.len() implies placement(
            count,
            (#[trigger] second[i]).name,
        ) is Ok by {
            lemma_same_members(first, second, second[i]);
        }
    }
    if first_error(second, count) is None {
        assert forall|i: int| 0 <= i < first.len() implies placement(
            count,
            (#[trigger] first[i]).name,
        ) is Ok by {
            lemma_same_members(second, first, first[i]);
        }
    }
}

/// Where no two files of a category have the same ordinal, the joined text
/// does not depend on the order in which the files are listed.
pub proof fn law_listing_order(first: Seq<FragmentFileView>, second: Seq<FragmentFileView>)
    requires
        first.to_multiset() == second.to_multiset(),
        collected(first) is Ok,
        has_distinct_ordinals(first),
    ensures
        collected(second) == collected(first),
{
    law_failure_in_any_order(first, second);
    first.to_multiset_ensures();
    second.to_multiset_ensures();
    assert forall|index: int| 0 <= index < first.len() implies slot_text(first, index)
        == slot_text(second, index) by {
        lemma_slot_text(first, index);
        lemma_slot_text(second, index);
        let a = last_with_slot(first, index);
        let b = last_with_slot(second, index);
        if b >= 0 {
            lemma_same_members(first, second, second[b]);
        } else if a >= 0 {
            lemma_same_members(second, first, first[a]);
        }
    }
    assert(slots_of(first) == slots_of(second));
}

} // verus!
