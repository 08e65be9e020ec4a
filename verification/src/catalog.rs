//! Reading a patch catalog from tab-separated text.

use crate::grammar::{
    decimal_value, digit_value, first_malformed, is_digit, is_number, lines_from, lines_of,
    parsed, read_line, records_of, strip_cr, LineReading, NumericField,
};
use crate::patch::{views, Patch, PatchView, DATA_MAX};
use crate::text::{chars_of, find_char, lemma_find_from, string_of};
use vstd::prelude::*;
use vstd::slice::slice_subrange;

verus! {

/// What the parser made of one line.
#[derive(Debug, PartialEq, Eq)]
pub enum ParsedLine {
    /// Not a record; the parser passes over it.
    Noise,
    /// A record, with the patch it describes.
    Record(Patch),
    /// A record with a number above 127 in the named field.
    Malformed(NumericField),
}

impl View for ParsedLine {
    type V = LineReading;

    open spec fn view(&self) -> LineReading {
        match *self {
            ParsedLine::Noise => LineReading::Noise,
            ParsedLine::Record(patch) => LineReading::Record(patch@),
            ParsedLine::Malformed(field) => LineReading::Malformed(field),
        }
    }
}

/// Whether `s` is a numeric field.
fn all_digits(s: &[char]) -> (yes: bool)
    ensures
        yes == is_number(s@),
{
    if s.len() == 0 {
        return false;
    }
    let mut i: usize = 0;
    while i < s.len()
        invariant
            i <= s.len(),
            forall|k: int| 0 <= k < i ==> is_digit(#[trigger] s@[k]),
        decreases s.len() - i,
    {
        if s[i] < '0' || s[i] > '9' {
            return false;
        }
        i += 1;
    }
    true
}

/// A prefix one digit longer denotes ten times as much, plus the digit.
proof fn lemma_decimal_value_step(s: Seq<char>, i: int)
    requires
        0 <= i < s.len(),
    ensures
        decimal_value(s.take(i + 1)) == decimal_value(s.take(i)) * 10 + digit_value(s[i]),
{
    assert(s.take(i + 1).drop_last() =~= s.take(i));
}

/// The value of a numeric field when it fits in seven bits.
fn small_value(s: &[char]) -> (value: Option<u8>)
    requires
        is_number(s@),
    ensures
        value == if decimal_value(s@) <= DATA_MAX {
            Some(decimal_value(s@) as u8)
        } else {
            None::<u8>
        },
{
    // `seen` follows the value of the digits read so far and stops at 128,
    // which already says that the field is too large.
    let mut seen: u32 = 0;
    let mut i: usize = 0;
    while i < s.len()
        invariant
            i <= s.len(),
            is_number(s@),
            seen <= 128,
            seen < 128 ==> seen == decimal_value(s@.take(i as int)),
            seen == 128 ==> decimal_value(s@.take(i as int)) >= 128,
        decreases s.len() - i,
    {
        let digit: u32 = s[i] as u32 - '0' as u32;
        proof {
            lemma_decimal_value_step(s@, i as int);
        }
        let next: u32 = seen * 10 + digit;
        seen = if next > 128 {
            128
        } else {
            next
        };
        i += 1;
    }
    proof {
        assert(s@.take(s@.len() as int) =~= s@);
    }
    if seen <= 127 {
        Some(seen as u8)
    } else {
        None
    }
}

/// Reads one line, given as its characters.
pub fn parse_line_chars(line: &[char]) -> (out: ParsedLine)
    ensures
        out@ == read_line(line@),
{
    let n = line.len();
    let t1 = find_char(line, '\t', 0);
    if t1 >= n {
        return ParsedLine::Noise;
    }
    let t2 = find_char(line, '\t', t1 + 1);
    if t2 >= n {
        return ParsedLine::Noise;
    }
    let t3 = find_char(line, '\t', t2 + 1);
    if t3 >= n {
        return ParsedLine::Noise;
    }
    let t4 = find_char(line, '\t', t3 + 1);
    if t4 >= n {
        return ParsedLine::Noise;
    }
    proof {
        lemma_find_from(line@, '\t', t1 + 1);
        lemma_find_from(line@, '\t', t2 + 1);
        lemma_find_from(line@, '\t', t3 + 1);
    }
    let first = slice_subrange(line, 0, t1);
    let second = slice_subrange(line, t1 + 1, t2);
    let third = slice_subrange(line, t2 + 1, t3);
    if !all_digits(first) || !all_digits(second) || !all_digits(third) || t4 == t3 + 1 {
        return ParsedLine::Noise;
    }
    let program_change = match small_value(first) {
        Some(value) => value,
        None => {
            return ParsedLine::Malformed(NumericField::ProgramChange);
        },
    };
    let bank_msb = match small_value(second) {
        Some(value) => value,
        None => {
            return ParsedLine::Malformed(NumericField::BankMsb);
        },
    };
    let bank_lsb = match small_value(third) {
        Some(value) => value,
        None => {
            return ParsedLine::Malformed(NumericField::BankLsb);
        },
    };
    let name = string_of(slice_subrange(line, t3 + 1, t4));
    let category = string_of(slice_subrange(line, t4 + 1, n));
    let made = Patch::new(program_change, bank_msb, bank_lsb, name, category);
    ParsedLine::Record(made.unwrap())
}

/// Reads one line of a catalog.
pub fn parse_line(line: &str) -> (out: ParsedLine)
    ensures
        out@ == read_line(line@),
{
    let chars = chars_of(line);
    parse_line_chars(chars.as_slice())
}

/// Why a catalog was refused: a record, on the line with this position
/// counted from zero, holds a number above 127 in this field. It is the
/// first such line of the text and the first such field of the line.
#[derive(Clone, Copy, Debug, PartialEq, Eq)]
pub struct ParseError {
    pub line: usize,
    pub field: NumericField,
}

/// The patches of a catalog, in the order of the source text. Equal
/// entries may occur more than once.
#[derive(Debug, PartialEq, Eq)]
pub struct Catalog {
    patches: Vec<Patch>,
}

impl View for Catalog {
    type V = Seq<PatchView>;

    closed spec fn view(&self) -> Seq<PatchView> {
        views(self.patches@)
    }
}

impl Catalog {
    /// The number of patches.
    pub fn len(&self) -> (count: usize)
        ensures
            count == self@.len(),
    {
        self.patches.len()
    }

    /// The patch at `index`, or `None` past the end.
    pub fn get(&self, index: usize) -> (found: Option<&Patch>)
        ensures
            index < self@.len() ==> found.is_some() && found.unwrap()@ == self@[index as int],
            index >= self@.len() ==> found.is_none(),
    {
        if index < self.patches.len() {
            Some(&self.patches[index])
        } else {
            None
        }
    }

    /// All patches, in catalog order.
    pub fn patches(&self) -> (all: &[Patch])
        ensures
            views(all@) == self@,
    {
        self.patches.as_slice()
    }
}

/// The model of what a parse returned: the patches of the catalog, or
/// the position and field of the fault.
pub open spec fn outcome_view(out: Result<Catalog, ParseError>) -> Result<
    Seq<PatchView>,
    (int, NumericField),
> {
    match out {
        Ok(catalog) => Ok(catalog@),
        Err(error) => Err((error.line as int, error.field)),
    }
}

/// Once a malformed record is found among some lines, more lines after
/// them do not change which one is first.
proof fn lemma_first_malformed_stays(lines: Seq<Seq<char>>, more: Seq<Seq<char>>)
    requires
        first_malformed(lines).is_some(),
    ensures
        first_malformed(lines + more) == first_malformed(lines),
    decreases more.len(),
{
    if more.len() > 0 {
        lemma_first_malformed_stays(lines, more.drop_last());
        assert((lines + more).drop_last() =~= lines + more.drop_last());
    }
}

/// Parses a catalog: one candidate record per line. Lines that are not
/// records are passed over. The first record with a number above 127
/// fails the whole parse, and no patches are returned.
pub fn parse_catalog(text: &str) -> (out: Result<Catalog, ParseError>)
    ensures
        outcome_view(out) == parsed(text@),
{
    let chars = chars_of(text);
    let all = chars.as_slice();
    let total = all.len();
    let mut patches: Vec<Patch> = Vec::new();
    let mut from: usize = 0;
    let mut line_no: usize = 0;
    let ghost mut done: Seq<Seq<char>> = Seq::empty();
    while from < total
        invariant
            all@ == text@,
            total == all@.len(),
            from <= total,
            line_no == done.len(),
            line_no <= from,
            lines_of(text@) == done + lines_from(text@, from as int),
            first_malformed(done).is_none(),
            views(patches@) == records_of(done),
        decreases total - from,
    {
        let nl = find_char(all, '\n', from);
        proof {
            lemma_find_from(all@, '\n', from as int);
        }
        let end = if nl > from && all[nl - 1] == '\r' {
            nl - 1
        } else {
            nl
        };
        let line = slice_subrange(all, from, end);
        let next = if nl < total {
            nl + 1
        } else {
            total
        };
        let ghost rest = lines_from(text@, next as int);
        proof {
            assert(line@ == strip_cr(text@.subrange(from as int, nl as int)));
            assert(lines_of(text@) =~= done.push(line@) + rest);
            assert(done.push(line@).drop_last() =~= done);
        }
        match parse_line_chars(line) {
            ParsedLine::Malformed(field) => {
                proof {
                    lemma_first_malformed_stays(done.push(line@), rest);
                }
                return Err(ParseError { line: line_no, field });
            },
            ParsedLine::Record(patch) => {
                patches.push(patch);
            },
            ParsedLine::Noise => {},
        }
        proof {
            done = done.push(line@);
        }
        line_no += 1;
        from = next;
    }
    Ok(Catalog { patches })
}

/// Parsing keeps no state between calls: two parses of the same text
/// agree, in the patches and their order, or in the fault.
pub proof fn lemma_parse_twice_agrees(
    text: Seq<char>,
    first: Result<Catalog, ParseError>,
    second: Result<Catalog, ParseError>,
)
    requires
        outcome_view(first) == parsed(text),
        outcome_view(second) == parsed(text),
    ensures
        outcome_view(first) == outcome_view(second),
        first matches Ok(a) ==> second matches Ok(b) && a@ == b@,
        first matches Err(a) ==> second matches Err(b) && a == b,
{
}

} // verus!
