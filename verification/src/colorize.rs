//! Heuristics that pick out section headers and code-like lines of a page.
use vstd::prelude::*;

use crate::app::Theme;
use crate::text::{chars_of, contains_char, contains_chars, has_prefix, has_substring, starts_with_chars};

verus! {

/// Whether a character has Unicode's `Uppercase` property, as `char::is_uppercase` reports it.
pub uninterp spec fn uppercase_property(c: char) -> bool;

/// Whether a character has Unicode's `White_Space` property, as `char::is_whitespace` reports it.
pub uninterp spec fn whitespace_property(c: char) -> bool;

/// Calls `char::is_uppercase`. The result is taken to be `uppercase_property`
/// of the character; among ASCII characters exactly `A`..`Z` have it.
#[verifier::external_body]
fn is_uppercase(c: char) -> (r: bool)
    ensures
        r == uppercase_property(c),
        (c as u32) < 128 ==> (r <==> ('A' <= c && c <= 'Z')),
{
    c.is_uppercase()
}

/// Calls `char::is_whitespace`. The result is taken to be `whitespace_property`
/// of the character; among ASCII characters exactly the space and the
/// controls from tab to carriage return have it.
#[verifier::external_body]
fn is_whitespace(c: char) -> (r: bool)
    ensures
        r == whitespace_property(c),
        (c as u32) < 128 ==> (r <==> (c == ' ' || ('\t' <= c && c <= '\r'))),
{
    c.is_whitespace()
}

/// A character that counts toward a header's capitals: upper case, white
/// space, an ASCII digit or a hyphen.
pub open spec fn header_char(c: char) -> bool {
    uppercase_property(c) || whitespace_property(c) || ('0' <= c && c <= '9') || c == '-'
}

/// A character allowed in a header written all in capitals.
pub open spec fn capital_char(c: char) -> bool {
    uppercase_property(c) || whitespace_property(c) || c == '-'
}

/// How many characters of `s` are header characters.
pub open spec fn count_header_chars(s: Seq<char>) -> nat
    decreases s.len(),
{
    if s.len() == 0 {
        0
    } else {
        count_header_chars(s.drop_last()) + if header_char(s.last()) {
            1nat
        } else {
            0nat
        }
    }
}

/// The usual names of man page sections.
pub open spec fn common_headers() -> Seq<Seq<char>> {
    seq![
        "NAME"@,
        "SYNOPSIS"@,
        "DESCRIPTION"@,
        "OPTIONS"@,
        "ARGUMENTS"@,
        "EXAMPLES"@,
        "FILES"@,
        "SEE ALSO"@,
        "AUTHOR"@,
        "COPYRIGHT"@,
        "BUGS"@,
        "HISTORY"@,
        "NOTES"@,
        "EXIT STATUS"@,
        "ENVIRONMENT"@,
    ]
}

/// A line of `byte_len` bytes with characters `line` is a section header: it
/// is 2 to 30 bytes long, more than seven tenths of its bytes are matched by
/// header characters, and it is either written all in capitals or starts with
/// a usual section name.
pub open spec fn section_header(line: Seq<char>, byte_len: int) -> bool {
    &&& 2 <= byte_len <= 30
    &&& 10 * count_header_chars(line) > 7 * byte_len
    &&& (forall|i: int| 0 <= i < line.len() ==> capital_char(#[trigger] line[i])) || exists|k: int|
        0 <= k < common_headers().len() && has_prefix(line, #[trigger] common_headers()[k])
}

/// A line that looks like code: paired brackets, braces or angle brackets, a
/// pipe, or an empty `()` or `[]`.
pub open spec fn code_like(s: Seq<char>) -> bool {
    ||| s.contains('[') && s.contains(']')
    ||| s.contains('|')
    ||| s.contains('<') && s.contains('>')
    ||| s.contains('{') && s.contains('}')
    ||| has_substring(s, seq!['(', ')'])
    ||| has_substring(s, seq!['[', ']'])
}

/// Classifies the lines of a man page for highlighting.
pub struct ManColorizer;

impl ManColorizer {
    pub fn new(_theme: Theme) -> (c: Self) {
        ManColorizer
    }

    /// Whether `line` is a section header (see `section_header`).
    pub fn is_section_header(&self, line: &str) -> (r: bool)
        ensures
            r == section_header(line@, line.len() as int),
    {
        let byte_len = line.len();
        if byte_len < 2 || byte_len > 30 {
            return false;
        }
        let chars = chars_of(line);
        let mut count: usize = 0;
        let mut all_capitals = true;
        let mut i: usize = 0;
        while i < chars.len()
            invariant
                i <= chars@.len(),
                chars@ == line@,
                count as nat == count_header_chars(chars@.take(i as int)),
                count <= i,
                all_capitals == (forall|j: int| 0 <= j < i ==> capital_char(#[trigger] chars@[j])),
            decreases chars@.len() - i,
        {
            let c = chars[i];
            let up = is_uppercase(c);
            let ws = is_whitespace(c);
            assert(chars@.take(i + 1).drop_last() =~= chars@.take(i as int));
            if up || ws || ('0' <= c && c <= '9') || c == '-' {
                count = count + 1;
            }
            if !(up || ws || c == '-') {
                all_capitals = false;
            }
            i = i + 1;
        }
        assert(chars@.take(i as int) =~= chars@);
        if (count as u128) * 10 <= (byte_len as u128) * 7 {
            return false;
        }
        if all_capitals {
            return true;
        }
        let headers: [&str; 15] = [
            "NAME",
            "SYNOPSIS",
            "DESCRIPTION",
            "OPTIONS",
            "ARGUMENTS",
            "EXAMPLES",
            "FILES",
            "SEE ALSO",
            "AUTHOR",
            "COPYRIGHT",
            "BUGS",
            "HISTORY",
            "NOTES",
            "EXIT STATUS",
            "ENVIRONMENT",
        ];
        assert(headers@.map_values(|h: &str| h@) =~= common_headers());
        let mut k: usize = 0;
        while k < 15
            invariant
                k <= 15,
                chars@ == line@,
                2 <= line.len() <= 30,
                10 * count_header_chars(line@) > 7 * (line.len() as int),
                headers@.map_values(|h: &str| h@) == common_headers(),
                forall|m: int| 0 <= m < k ==> !has_prefix(line@, #[trigger] common_headers()[m]),
            decreases 15 - k,
        {
            let h = chars_of(headers[k]);
            assert(h@ == common_headers()[k as int]);
            if starts_with_chars(chars.as_slice(), h.as_slice()) {
                assert(has_prefix(line@, common_headers()[k as int]));
                return true;
            }
            k = k + 1;
        }
        false
    }

    /// Whether `line` looks like code (see `code_like`).
    pub fn looks_like_code(&self, line: &str) -> (r: bool)
        ensures
            r == code_like(line@),
    {
        let s = chars_of(line);
        let t = s.as_slice();
        let parens = ['(', ')'];
        let brackets = ['[', ']'];
        assert(parens@ =~= seq!['(', ')']);
        assert(brackets@ =~= seq!['[', ']']);
        contains_char(t, '[') && contains_char(t, ']') || contains_char(t, '|') || contains_char(t, '<')
            && contains_char(t, '>') || contains_char(t, '{') && contains_char(t, '}') || (
        contains_chars(t, &parens) || contains_chars(t, &brackets))
    }
}

proof fn lemma_count_all_header_chars(s: Seq<char>)
    requires
        forall|i: int| 0 <= i < s.len() ==> header_char(#[trigger] s[i]),
    ensures
        count_header_chars(s) == s.len(),
    decreases s.len(),
{
    if s.len() > 0 {
        let init = s.drop_last();
        assert forall|i: int| 0 <= i < init.len() implies header_char(#[trigger] init[i]) by {
            assert(init[i] == s[i]);
        }
        lemma_count_all_header_chars(init);
        assert(header_char(s[s.len() - 1]));
    }
}

/// A line of 2 to 30 bytes made only of upper-case characters, white space
/// and hyphens, with fewer than ten bytes for every seven characters (any
/// plain ASCII line), is a section header, whatever words it holds.
pub proof fn lemma_capitals_make_a_header(line: Seq<char>, byte_len: int)
    requires
        2 <= byte_len <= 30,
        7 * byte_len < 10 * line.len(),
        forall|i: int|
            0 <= i < line.len() ==> uppercase_property(#[trigger] line[i]) || whitespace_property(line[i])
                || line[i] == '-',
    ensures
        section_header(line, byte_len),
{
    lemma_count_all_header_chars(line);
}

} // verus!
