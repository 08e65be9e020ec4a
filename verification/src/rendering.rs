//! How a catalog is written down, and that reading it back gives the
//! same patches.

use crate::grammar::{
    decimal_value, first_malformed, is_number, lines_from, lines_of, parsed, read_line,
    records_of, split_record, strip_cr, LineReading, NumericField, RecordFields,
};
use crate::patch::PatchView;
use crate::text::{find_from, lemma_find_from, lemma_find_from_is};
use vstd::prelude::*;

verus! {

/// The character that stands for the digit `d`.
pub open spec fn digit_char(d: nat) -> char {
    ('0' as int + d) as char
}

/// The decimal digits of `n`, most significant first, without leading
/// zeros; a single `0` for zero.
pub open spec fn decimal_digits(n: nat) -> Seq<char>
    decreases n,
{
    if n < 10 {
        seq![digit_char(n)]
    } else {
        decimal_digits(n / 10).push(digit_char(n % 10))
    }
}

/// A record written as one line: the five fields with a tab between each
/// two.
pub open spec fn record_text(fields: RecordFields) -> Seq<char> {
    fields.program_change + seq!['\t'] + fields.bank_msb + seq!['\t'] + fields.bank_lsb
        + seq!['\t'] + fields.name + seq!['\t'] + fields.category
}

/// The fields that write `patch` down.
pub open spec fn fields_of(patch: PatchView) -> RecordFields {
    RecordFields {
        program_change: decimal_digits(patch.program_change),
        bank_msb: decimal_digits(patch.bank_msb),
        bank_lsb: decimal_digits(patch.bank_lsb),
        name: patch.name,
        category: patch.category,
    }
}

/// The line that writes `patch` down.
pub open spec fn record_line(patch: PatchView) -> Seq<char> {
    record_text(fields_of(patch))
}

/// A text made of `lines`, each followed by a line feed.
pub open spec fn text_of_lines(lines: Seq<Seq<char>>) -> Seq<char>
    decreases lines.len(),
{
    if lines.len() == 0 {
        Seq::empty()
    } else {
        lines.first() + seq!['\n'] + text_of_lines(lines.drop_first())
    }
}

/// `text` holds no `ch`.
pub open spec fn free_of(text: Seq<char>, ch: char) -> bool {
    forall|i: int| 0 <= i < text.len() ==> #[trigger] text[i] != ch
}

/// A line that can stand in a text as it is: it holds no line feed and
/// does not end in a carriage return.
pub open spec fn whole_line(line: Seq<char>) -> bool {
    free_of(line, '\n') && strip_cr(line) == line
}

/// A patch that a catalog line can hold: it is valid, its name has no
/// tab and no line feed, and its category has no line feed and does not
/// end in a carriage return.
pub open spec fn writable(patch: PatchView) -> bool {
    &&& patch.valid()
    &&& free_of(patch.name, '\t')
    &&& free_of(patch.name, '\n')
    &&& free_of(patch.category, '\n')
    &&& strip_cr(patch.category) == patch.category
}

/// The catalog text that writes `patches` down, one line each.
pub open spec fn catalog_text(patches: Seq<PatchView>) -> Seq<char> {
    text_of_lines(patches.map_values(|p: PatchView| record_line(p)))
}

/// The digits of a number are a numeric field that denotes the number.
pub proof fn lemma_decimal_digits(n: nat)
    ensures
        is_number(decimal_digits(n)),
        decimal_value(decimal_digits(n)) == n,
    decreases n,
{
    if n < 10 {
        assert(decimal_value(seq![digit_char(n)].drop_last()) == 0);
    } else {
        lemma_decimal_digits(n / 10);
        let front = decimal_digits(n / 10);
        assert(front.push(digit_char(n % 10)).drop_last() =~= front);
    }
}

/// A line written from five fields splits into the same five fields.
pub proof fn lemma_split_of_record_text(fields: RecordFields)
    requires
        is_number(fields.program_change),
        is_number(fields.bank_msb),
        is_number(fields.bank_lsb),
        fields.name.len() > 0,
        free_of(fields.name, '\t'),
    ensures
        split_record(record_text(fields)) == Some(fields),
{
    let line = record_text(fields);
    let t1 = fields.program_change.len() as int;
    let t2 = t1 + 1 + fields.bank_msb.len();
    let t3 = t2 + 1 + fields.bank_lsb.len();
    let t4 = t3 + 1 + fields.name.len();
    lemma_find_from_is(line, '\t', 0, t1);
    lemma_find_from_is(line, '\t', t1 + 1, t2);
    lemma_find_from_is(line, '\t', t2 + 1, t3);
    lemma_find_from_is(line, '\t', t3 + 1, t4);
    assert(line.subrange(0, t1) =~= fields.program_change);
    assert(line.subrange(t1 + 1, t2) =~= fields.bank_msb);
    assert(line.subrange(t2 + 1, t3) =~= fields.bank_lsb);
    assert(line.subrange(t3 + 1, t4) =~= fields.name);
    assert(line.subrange(t4 + 1, line.len() as int) =~= fields.category);
}

/// The line that writes a valid patch down reads back as that patch,
/// with every field as it was.
pub proof fn lemma_read_of_record_line(patch: PatchView)
    requires
        patch.valid(),
        free_of(patch.name, '\t'),
    ensures
        read_line(record_line(patch)) == LineReading::Record(patch),
{
    lemma_decimal_digits(patch.program_change);
    lemma_decimal_digits(patch.bank_msb);
    lemma_decimal_digits(patch.bank_lsb);
    lemma_split_of_record_text(fields_of(patch));
}

/// Searching in a text that stands behind another finds what searching
/// in the text alone finds, moved by the length of what stands before.
proof fn lemma_find_from_behind(before: Seq<char>, text: Seq<char>, ch: char, from: int)
    requires
        0 <= from <= text.len(),
    ensures
        find_from(before + text, ch, before.len() + from) == before.len() + find_from(
            text,
            ch,
            from,
        ),
    decreases text.len() - from,
{
    if from < text.len() && text[from] != ch {
        lemma_find_from_behind(before, text, ch, from + 1);
    }
}

/// The lines of a text that stands behind another, counted from where
/// it begins, are the lines of the text alone.
proof fn lemma_lines_from_behind(before: Seq<char>, text: Seq<char>, from: int)
    requires
        0 <= from <= text.len(),
    ensures
        lines_from(before + text, before.len() + from) == lines_from(text, from),
    decreases text.len() - from,
{
    if from < text.len() {
        lemma_find_from_behind(before, text, '\n', from);
        lemma_find_from(text, '\n', from);
        let end = find_from(text, '\n', from);
        assert((before + text).subrange(before.len() + from, before.len() + end)
            =~= text.subrange(from, end));
        if end < text.len() {
            lemma_lines_from_behind(before, text, end + 1);
        }
    }
}

/// A text made of lines splits into the same lines.
pub proof fn lemma_lines_of_text(lines: Seq<Seq<char>>)
    requires
        forall|i: int| 0 <= i < lines.len() ==> whole_line(#[trigger] lines[i]),
    ensures
        lines_of(text_of_lines(lines)) == lines,
    decreases lines.len(),
{
    if lines.len() > 0 {
        let first = lines.first();
        let others = lines.drop_first();
        let head = first + seq!['\n'];
        let text = head + text_of_lines(others);
        lemma_lines_of_text(others);
        lemma_find_from_is(text, '\n', 0, first.len() as int);
        assert(text.subrange(0, first.len() as int) =~= first);
        lemma_lines_from_behind(head, text_of_lines(others), 0);
    }
}

/// The line that writes a writable patch down can stand in a text as it
/// is.
proof fn lemma_record_line_is_whole(patch: PatchView)
    requires
        writable(patch),
    ensures
        whole_line(record_line(patch)),
{
    lemma_decimal_digits(patch.program_change);
    lemma_decimal_digits(patch.bank_msb);
    lemma_decimal_digits(patch.bank_lsb);
}

/// The text that writes a sequence of writable patches down parses, and
/// gives back the same patches in the same order, each with its fields as
/// they were.
pub proof fn lemma_written_catalog_reads_back(patches: Seq<PatchView>)
    requires
        forall|i: int| 0 <= i < patches.len() ==> writable(#[trigger] patches[i]),
    ensures
        parsed(catalog_text(patches)) == Ok::<Seq<PatchView>, (int, NumericField)>(patches),
{
    let lines = patches.map_values(|p: PatchView| record_line(p));
    assert forall|i: int| 0 <= i < lines.len() implies whole_line(#[trigger] lines[i]) by {
        lemma_record_line_is_whole(patches[i]);
    }
    lemma_lines_of_text(lines);
    lemma_reading_record_lines(patches);
}

/// Lines that write writable patches down hold no malformed record and
/// give back the patches.
proof fn lemma_reading_record_lines(patches: Seq<PatchView>)
    requires
        forall|i: int| 0 <= i < patches.len() ==> writable(#[trigger] patches[i]),
    ensures
        first_malformed(patches.map_values(|p: PatchView| record_line(p))).is_none(),
        records_of(patches.map_values(|p: PatchView| record_line(p))) == patches,
    decreases patches.len(),
{
    if patches.len() > 0 {
        let lines = patches.map_values(|p: PatchView| record_line(p));
        let before = patches.drop_last();
        lemma_reading_record_lines(before);
        assert(lines.drop_last() =~= before.map_values(|p: PatchView| record_line(p)));
        lemma_read_of_record_line(patches.last());
    }
}

} // verus!
