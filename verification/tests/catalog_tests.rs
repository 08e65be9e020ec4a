use patch_browser::catalog::{parse_catalog, parse_line, parse_line_chars, ParseError, ParsedLine};
use patch_browser::grammar::NumericField;
use patch_browser::patch::Patch;

fn made(pc: u8, msb: u8, lsb: u8, name: &str, category: &str) -> Patch {
    Patch::new(pc, msb, lsb, name.to_string(), category.to_string()).unwrap()
}

#[test]
fn record_line_gives_its_patch() {
    let catalog = parse_catalog("3\t0\t1\tBrightLead\tLead").unwrap();
    assert_eq!(catalog.len(), 1);
    assert_eq!(catalog.patches(), &[made(3, 0, 1, "BrightLead", "Lead")]);
    let only = catalog.get(0).unwrap();
    assert_eq!(only.program_change(), 3);
    assert_eq!(only.bank_msb(), 0);
    assert_eq!(only.bank_lsb(), 1);
    assert_eq!(only.name(), "BrightLead");
    assert_eq!(only.category(), "Lead");
    assert!(catalog.get(1).is_none());
}

#[test]
fn header_line_is_skipped() {
    let text = "PC\tMSB\tLSB\tName\tCategory\n3\t0\t1\tBrightLead\tLead\n";
    let catalog = parse_catalog(text).unwrap();
    assert_eq!(catalog.patches(), &[made(3, 0, 1, "BrightLead", "Lead")]);
    assert_eq!(parse_line("PC\tMSB\tLSB\tName\tCategory"), ParsedLine::Noise);
}

#[test]
fn number_out_of_range_fails_the_parse() {
    let text = "3\t0\t1\tBrightLead\tLead\n4\t128\t1\tDarkPad\tPad\n5\t0\t1\tBell\tKeys\n";
    assert_eq!(
        parse_catalog(text),
        Err(ParseError { line: 1, field: NumericField::BankMsb })
    );
    assert_eq!(
        parse_catalog("128\t0\t0\tLoud\tLead"),
        Err(ParseError { line: 0, field: NumericField::ProgramChange })
    );
}

#[test]
fn each_numeric_field_is_checked() {
    assert_eq!(
        parse_line("200\t0\t0\tA\tB"),
        ParsedLine::Malformed(NumericField::ProgramChange)
    );
    assert_eq!(
        parse_line("0\t200\t0\tA\tB"),
        ParsedLine::Malformed(NumericField::BankMsb)
    );
    assert_eq!(
        parse_line("0\t0\t200\tA\tB"),
        ParsedLine::Malformed(NumericField::BankLsb)
    );
    assert_eq!(
        parse_line("300\t300\t300\tA\tB"),
        ParsedLine::Malformed(NumericField::ProgramChange)
    );
    assert_eq!(
        parse_line("1\t300\t300\tA\tB"),
        ParsedLine::Malformed(NumericField::BankMsb)
    );
}

#[test]
fn seven_bit_limits() {
    assert_eq!(
        parse_line("127\t127\t127\tTop\tEdge"),
        ParsedLine::Record(made(127, 127, 127, "Top", "Edge"))
    );
    assert_eq!(
        parse_line("0\t0\t0\tBottom\tEdge"),
        ParsedLine::Record(made(0, 0, 0, "Bottom", "Edge"))
    );
    assert_eq!(
        parse_line("0\t0\t128\tOver\tEdge"),
        ParsedLine::Malformed(NumericField::BankLsb)
    );
}

#[test]
fn very_long_number_is_malformed_not_wrapped() {
    assert_eq!(
        parse_line("99999999999999999999999999\t0\t0\tHuge\tPad"),
        ParsedLine::Malformed(NumericField::ProgramChange)
    );
    assert_eq!(
        parse_line("4294967297\t0\t0\tWrap\tPad"),
        ParsedLine::Malformed(NumericField::ProgramChange)
    );
    assert_eq!(
        parse_line("0\t0\t256\tWrap\tPad"),
        ParsedLine::Malformed(NumericField::BankLsb)
    );
}

#[test]
fn leading_zeros_keep_the_value() {
    assert_eq!(
        parse_line("007\t000\t0127\tBond\tLead"),
        ParsedLine::Record(made(7, 0, 127, "Bond", "Lead"))
    );
}

#[test]
fn lines_of_another_shape_are_noise() {
    assert_eq!(parse_line(""), ParsedLine::Noise);
    assert_eq!(parse_line("just some words"), ParsedLine::Noise);
    assert_eq!(parse_line("1\t2\t3\tName"), ParsedLine::Noise);
    assert_eq!(parse_line("1\t2\t3"), ParsedLine::Noise);
    assert_eq!(parse_line("\t2\t3\tName\tCat"), ParsedLine::Noise);
    assert_eq!(parse_line("1\t\t3\tName\tCat"), ParsedLine::Noise);
    assert_eq!(parse_line("1\t2\t3\t\tCat"), ParsedLine::Noise);
    assert_eq!(parse_line("1a\t2\t3\tName\tCat"), ParsedLine::Noise);
    assert_eq!(parse_line("-1\t2\t3\tName\tCat"), ParsedLine::Noise);
    assert_eq!(parse_line("+1\t2\t3\tName\tCat"), ParsedLine::Noise);
    assert_eq!(parse_line(" 1\t2\t3\tName\tCat"), ParsedLine::Noise);
    assert_eq!(parse_line("1 2 3 Name Cat"), ParsedLine::Noise);
    assert_eq!(parse_line("999\t2\t3\tName"), ParsedLine::Noise);
    assert_eq!(parse_line("\u{0663}\t0\t1\tArabicDigit\tLead"), ParsedLine::Noise);
}

#[test]
fn category_is_the_rest_of_the_line() {
    assert_eq!(
        parse_line("1\t2\t3\tName\tKeys\tand\tmore"),
        ParsedLine::Record(made(1, 2, 3, "Name", "Keys\tand\tmore"))
    );
    assert_eq!(
        parse_line("1\t2\t3\tName\t"),
        ParsedLine::Record(made(1, 2, 3, "Name", ""))
    );
    assert_eq!(
        parse_line("1\t2\t3\tTwo Words\tSoft Pad"),
        ParsedLine::Record(made(1, 2, 3, "Two Words", "Soft Pad"))
    );
}

#[test]
fn text_outside_ascii_is_kept() {
    assert_eq!(
        parse_line("1\t2\t3\tFl\u{00fc}gel\tKlavier \u{266b}"),
        ParsedLine::Record(made(1, 2, 3, "Fl\u{00fc}gel", "Klavier \u{266b}"))
    );
}

#[test]
fn parse_line_chars_agrees_with_parse_line() {
    let line = "12\t34\t56\tName\tCat";
    let chars: Vec<char> = line.chars().collect();
    assert_eq!(parse_line_chars(&chars), parse_line(line));
    assert_eq!(
        parse_line_chars(&chars),
        ParsedLine::Record(made(12, 34, 56, "Name", "Cat"))
    );
}

#[test]
fn source_order_is_kept_and_duplicates_stay() {
    let text = "9\t1\t2\tZulu\tPad\n1\t1\t2\tAlpha\tLead\n9\t1\t2\tZulu\tPad\n";
    let catalog = parse_catalog(text).unwrap();
    assert_eq!(
        catalog.patches(),
        &[
            made(9, 1, 2, "Zulu", "Pad"),
            made(1, 1, 2, "Alpha", "Lead"),
            made(9, 1, 2, "Zulu", "Pad"),
        ]
    );
    assert_eq!(catalog.len(), 3);
}

#[test]
fn empty_text_gives_empty_catalog() {
    let catalog = parse_catalog("").unwrap();
    assert_eq!(catalog.len(), 0);
    assert!(catalog.patches().is_empty());
    assert!(catalog.get(0).is_none());
    assert_eq!(parse_catalog("\n\n\n").unwrap().len(), 0);
    assert_eq!(parse_catalog("no records here\nnor here").unwrap().len(), 0);
}

#[test]
fn last_line_needs_no_line_feed() {
    let with = parse_catalog("1\t2\t3\tA\tB\n4\t5\t6\tC\tD\n").unwrap();
    let without = parse_catalog("1\t2\t3\tA\tB\n4\t5\t6\tC\tD").unwrap();
    assert_eq!(with, without);
    assert_eq!(with.len(), 2);
}

#[test]
fn carriage_return_belongs_to_the_line_ending() {
    let catalog = parse_catalog("1\t2\t3\tA\tB\r\n4\t5\t6\tC\tD\r\n").unwrap();
    assert_eq!(
        catalog.patches(),
        &[made(1, 2, 3, "A", "B"), made(4, 5, 6, "C", "D")]
    );
    let inner = parse_catalog("1\t2\t3\tA\tB\rC\n").unwrap();
    assert_eq!(inner.patches(), &[made(1, 2, 3, "A", "B\rC")]);
}

#[test]
fn fault_position_counts_every_line() {
    let text = "header\n\n1\t2\t3\tA\tB\nnoise\n1\t2\t999\tBad\tPad\n";
    assert_eq!(
        parse_catalog(text),
        Err(ParseError { line: 4, field: NumericField::BankLsb })
    );
}

#[test]
fn first_fault_is_reported() {
    let text = "1\t2\t3\tA\tB\n1\t2\t999\tBad\tPad\n500\t2\t3\tWorse\tPad\n";
    assert_eq!(
        parse_catalog(text),
        Err(ParseError { line: 1, field: NumericField::BankLsb })
    );
}

#[test]
fn fault_after_good_records_returns_no_catalog() {
    let text = "1\t2\t3\tA\tB\n4\t5\t6\tC\tD\n7\t8\t900\tE\tF";
    let out = parse_catalog(text);
    assert!(out.is_err());
    assert_eq!(out.unwrap_err().line, 2);
}

#[test]
fn parsing_twice_gives_equal_catalogs() {
    let text = "PC\tMSB\tLSB\tName\tCategory\n3\t0\t1\tBrightLead\tLead\n4\t0\t1\tDarkPad\tPad\n";
    let first = parse_catalog(text);
    let second = parse_catalog(text);
    assert_eq!(first, second);
    let first = first.unwrap();
    let second = second.unwrap();
    assert_eq!(first.len(), second.len());
    for i in 0..first.len() {
        let a = first.get(i).unwrap();
        let b = second.get(i).unwrap();
        assert_eq!(a.program_change(), b.program_change());
        assert_eq!(a.bank_msb(), b.bank_msb());
        assert_eq!(a.bank_lsb(), b.bank_lsb());
        assert_eq!(a.name(), b.name());
        assert_eq!(a.category(), b.category());
    }
    let bad = "1\t2\t300\tA\tB";
    assert_eq!(parse_catalog(bad), parse_catalog(bad));
}

#[test]
fn written_catalog_reads_back() {
    let patches = vec![
        made(0, 0, 0, "Zero", ""),
        made(9, 10, 99, "Nine Ten", "Pad"),
        made(100, 127, 5, "Big", "Keys\tSplit"),
    ];
    let mut text = String::new();
    for p in &patches {
        text.push_str(&format!(
            "{}\t{}\t{}\t{}\t{}\n",
            p.program_change(),
            p.bank_msb(),
            p.bank_lsb(),
            p.name(),
            p.category()
        ));
    }
    let catalog = parse_catalog(&text).unwrap();
    assert_eq!(catalog.patches(), patches.as_slice());
}
