//! Character-level helpers shared by the catalog parser and the search.

use vstd::prelude::*;

verus! {

/// `String::push` appends one character to the end of the string and
/// leaves the rest as it was. Taken from the standard library's
/// documentation; not proved here.
pub assume_specification[ String::push ](s: &mut String, ch: char)
    ensures
        final(s)@ == old(s)@.push(ch),
;

/// The characters of `text`, in order.
pub fn chars_of(text: &str) -> (out: Vec<char>)
    ensures
        out@ == text@,
{
    let mut out: Vec<char> = Vec::new();
    for c in it: text.chars()
        invariant
            it.seq() == text@,
            out@ == it.seq().take(it.index() as int),
    {
        out.push(c);
    }
    out
}

/// A string holding exactly the characters of `chars`.
pub fn string_of(chars: &[char]) -> (out: String)
    ensures
        out@ == chars@,
{
    let mut out = String::new();
    let mut i: usize = 0;
    while i < chars.len()
        invariant
            i <= chars.len(),
            out@ == chars@.take(i as int),
        decreases chars.len() - i,
    {
        out.push(chars[i]);
        i += 1;
    }
    out
}

/// Position of the first `ch` in `s` at or after `from`, or `s.len()`
/// when there is none.
pub open spec fn find_from(s: Seq<char>, ch: char, from: int) -> int
    decreases s.len() - from,
{
    if from < 0 || from >= s.len() {
        s.len() as int
    } else if s[from] == ch {
        from
    } else {
        find_from(s, ch, from + 1)
    }
}

/// What `find_from` returns is the least position at or after `from` that
/// holds `ch`, or the length when no position does.
pub proof fn lemma_find_from(s: Seq<char>, ch: char, from: int)
    requires
        0 <= from <= s.len(),
    ensures
        from <= find_from(s, ch, from) <= s.len(),
        find_from(s, ch, from) < s.len() ==> s[find_from(s, ch, from)] == ch,
        forall|k: int| from <= k < find_from(s, ch, from) ==> s[k] != ch,
    decreases s.len() - from,
{
    if from < s.len() && s[from] != ch {
        lemma_find_from(s, ch, from + 1);
    }
}

/// Any position `at` reached from `from` without meeting `ch`, and which
/// holds `ch` or is the end, is what `find_from` returns.
pub proof fn lemma_find_from_is(s: Seq<char>, ch: char, from: int, at: int)
    requires
        0 <= from <= at <= s.len(),
        forall|k: int| from <= k < at ==> s[k] != ch,
        at < s.len() ==> s[at] == ch,
    ensures
        find_from(s, ch, from) == at,
    decreases at - from,
{
    if from < at {
        lemma_find_from_is(s, ch, from + 1, at);
    }
}

/// Scans `s` from `from` for the first `ch`.
pub fn find_char(s: &[char], ch: char, from: usize) -> (at: usize)
    ensures
        at == find_from(s@, ch, from as int),
        at <= s@.len(),
{
    if from >= s.len() {
        return s.len();
    }
    let mut at: usize = from;
    while at < s.len() && s[at] != ch
        invariant
            from <= at <= s.len(),
            forall|k: int| from <= k < at ==> s@[k] != ch,
        decreases s.len() - at,
    {
        at += 1;
    }
    proof {
        lemma_find_from_is(s@, ch, from as int, at as int);
    }
    at
}

} // verus!
