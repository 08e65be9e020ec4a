//! The shape of one catalog line, as mathematics.
//!
//! A record is five fields separated by tabs: three numbers written in
//! decimal digits, a name, and a category that runs to the end of the line
//! and may itself hold tabs. A line of any other shape is noise. A record
//! whose number exceeds 127 is malformed.

use crate::patch::{PatchView, DATA_MAX};
use crate::text::{find_from, lemma_find_from};
use vstd::prelude::*;

verus! {

/// `c` is one of the ten ASCII decimal digits.
pub open spec fn is_digit(c: char) -> bool {
    '0' <= c <= '9'
}

/// The number a digit stands for.
pub open spec fn digit_value(c: char) -> nat {
    (c as int - '0' as int) as nat
}

/// A numeric field: one or more decimal digits and nothing else.
pub open spec fn is_number(s: Seq<char>) -> bool {
    &&& s.len() > 0
    &&& forall|i: int| 0 <= i < s.len() ==> is_digit(#[trigger] s[i])
}

/// The number that a run of decimal digits denotes, most significant
/// digit first.
pub open spec fn decimal_value(s: Seq<char>) -> nat
    decreases s.len(),
{
    if s.len() == 0 {
        0
    } else {
        decimal_value(s.drop_last()) * 10 + digit_value(s.last())
    }
}

/// The five fields of a record, as they stand in the line.
pub struct RecordFields {
    pub program_change: Seq<char>,
    pub bank_msb: Seq<char>,
    pub bank_lsb: Seq<char>,
    pub name: Seq<char>,
    pub category: Seq<char>,
}

/// The fields of `line` when it has the shape of a record: at least four
/// tabs, three numbers before the first three, and a name that is not
/// empty before the fourth. The category is all that follows the fourth
/// tab.
pub open spec fn split_record(line: Seq<char>) -> Option<RecordFields> {
    let t1 = find_from(line, '\t', 0);
    let t2 = find_from(line, '\t', t1 + 1);
    let t3 = find_from(line, '\t', t2 + 1);
    let t4 = find_from(line, '\t', t3 + 1);
    let fields = RecordFields {
        program_change: line.subrange(0, t1),
        bank_msb: line.subrange(t1 + 1, t2),
        bank_lsb: line.subrange(t2 + 1, t3),
        name: line.subrange(t3 + 1, t4),
        category: line.subrange(t4 + 1, line.len() as int),
    };
    if t4 < line.len() && is_number(fields.program_change) && is_number(fields.bank_msb)
        && is_number(fields.bank_lsb) && fields.name.len() > 0 {
        Some(fields)
    } else {
        None
    }
}

/// The numeric fields of a record, in the order they are written.
#[derive(Clone, Copy, Debug, PartialEq, Eq, Structural)]
pub enum NumericField {
    ProgramChange,
    BankMsb,
    BankLsb,
}

/// What one line of a catalog amounts to.
pub enum LineReading {
    /// The line does not have the shape of a record.
    Noise,
    /// The line is a record and gives this patch.
    Record(PatchView),
    /// The line is a record, but this field, the first such, exceeds 127.
    Malformed(NumericField),
}

/// Reads one line.
pub open spec fn read_line(line: Seq<char>) -> LineReading {
    match split_record(line) {
        None => LineReading::Noise,
        Some(fields) => {
            if decimal_value(fields.program_change) > DATA_MAX {
                LineReading::Malformed(NumericField::ProgramChange)
            } else if decimal_value(fields.bank_msb) > DATA_MAX {
                LineReading::Malformed(NumericField::BankMsb)
            } else if decimal_value(fields.bank_lsb) > DATA_MAX {
                LineReading::Malformed(NumericField::BankLsb)
            } else {
                LineReading::Record(
                    PatchView {
                        program_change: decimal_value(fields.program_change),
                        bank_msb: decimal_value(fields.bank_msb),
                        bank_lsb: decimal_value(fields.bank_lsb),
                        name: fields.name,
                        category: fields.category,
                    },
                )
            }
        },
    }
}

/// A text without its final carriage return, if it ends in one.
pub open spec fn strip_cr(line: Seq<char>) -> Seq<char> {
    if line.len() > 0 && line.last() == '\r' {
        line.drop_last()
    } else {
        line
    }
}

/// The lines of `text` from position `from` on. Lines end at a line feed
/// or at the end of the text; a carriage return just before the end of a
/// line belongs to the line ending. A text that ends in a line feed has no
/// empty last line.
pub open spec fn lines_from(text: Seq<char>, from: int) -> Seq<Seq<char>>
    decreases text.len() - from,
    via lines_from_terminates
{
    if from < 0 || from >= text.len() {
        Seq::empty()
    } else {
        let end = find_from(text, '\n', from);
        let line = strip_cr(text.subrange(from, end));
        if end < text.len() {
            seq![line] + lines_from(text, end + 1)
        } else {
            seq![line]
        }
    }
}

#[via_fn]
proof fn lines_from_terminates(text: Seq<char>, from: int) {
    if 0 <= from < text.len() {
        lemma_find_from(text, '\n', from);
    }
}

/// The lines of `text`.
pub open spec fn lines_of(text: Seq<char>) -> Seq<Seq<char>> {
    lines_from(text, 0)
}

/// The first malformed record among `lines`: its position and the field
/// at fault. `None` when no line is malformed.
pub open spec fn first_malformed(lines: Seq<Seq<char>>) -> Option<(int, NumericField)>
    decreases lines.len(),
{
    if lines.len() == 0 {
        None
    } else {
        match first_malformed(lines.drop_last()) {
            Some(found) => Some(found),
            None => match read_line(lines.last()) {
                LineReading::Malformed(field) => Some((lines.len() - 1, field)),
                _ => None,
            },
        }
    }
}

/// The patches that the records among `lines` give, in the order of the
/// lines.
pub open spec fn records_of(lines: Seq<Seq<char>>) -> Seq<PatchView>
    decreases lines.len(),
{
    if lines.len() == 0 {
        Seq::empty()
    } else {
        match read_line(lines.last()) {
            LineReading::Record(patch) => records_of(lines.drop_last()).push(patch),
            _ => records_of(lines.drop_last()),
        }
    }
}

/// What parsing `text` must give: the patches of its records in source
/// order, or the first malformed record.
pub open spec fn parsed(text: Seq<char>) -> Result<Seq<PatchView>, (int, NumericField)> {
    match first_malformed(lines_of(text)) {
        Some(fault) => Err(fault),
        None => Ok(records_of(lines_of(text))),
    }
}

/// The line at fault is a malformed record, no line before it is one,
/// and a text is refused exactly when it holds such a line.
pub proof fn lemma_first_malformed_is_first(lines: Seq<Seq<char>>)
    ensures
        first_malformed(lines) matches Some((at, field)) ==> {
            &&& 0 <= at < lines.len()
            &&& read_line(lines[at]) == LineReading::Malformed(field)
            &&& forall|k: int| 0 <= k < at ==> !(read_line(#[trigger] lines[k]) is Malformed)
        },
        first_malformed(lines).is_none() ==> forall|k: int|
            0 <= k < lines.len() ==> !(read_line(#[trigger] lines[k]) is Malformed),
    decreases lines.len(),
{
    if lines.len() > 0 {
        let before = lines.drop_last();
        lemma_first_malformed_is_first(before);
        assert forall|k: int| 0 <= k < before.len() implies #[trigger] lines[k] == before[k] by {}
    }
}

/// Reading two runs of lines one after the other gives the patches of
/// the first run followed by those of the second: every record gives one
/// patch, and the patches stand in the order of their lines.
pub proof fn lemma_records_of_concat(first: Seq<Seq<char>>, second: Seq<Seq<char>>)
    ensures
        records_of(first + second) == records_of(first) + records_of(second),
    decreases second.len(),
{
    if second.len() > 0 {
        lemma_records_of_concat(first, second.drop_last());
        assert((first + second).drop_last() =~= first + second.drop_last());
    }
}

/// A single line gives one patch when it is a record in range, and none
/// otherwise.
pub proof fn lemma_records_of_one(line: Seq<char>)
    ensures
        records_of(seq![line]) == match read_line(line) {
            LineReading::Record(patch) => seq![patch],
            _ => Seq::<PatchView>::empty(),
        },
{
    assert(records_of(seq![line].drop_last()) =~= Seq::<PatchView>::empty());
}

/// Every patch that a catalog text gives is valid: its numbers fit in
/// seven bits and its name is not empty.
pub proof fn lemma_records_are_valid(lines: Seq<Seq<char>>, at: int)
    requires
        0 <= at < records_of(lines).len(),
    ensures
        records_of(lines)[at].valid(),
    decreases lines.len(),
{
    if lines.len() > 0 {
        match read_line(lines.last()) {
            LineReading::Record(patch) => {
                if at < records_of(lines.drop_last()).len() {
                    lemma_records_are_valid(lines.drop_last(), at);
                }
            },
            _ => {
                lemma_records_are_valid(lines.drop_last(), at);
            },
        }
    }
}

} // verus!
