//! Character-sequence helpers shared by the rest of the library.
use vstd::prelude::*;

verus! {

/// `String::push` appends one character to the end of the string.
pub assume_specification[ String::push ](s: &mut String, ch: char)
    ensures
        final(s)@ == old(s)@.push(ch),
;

/// `q` occurs in `s` starting at position `i`.
pub open spec fn occurs_at(s: Seq<char>, q: Seq<char>, i: int) -> bool {
    0 <= i && i + q.len() <= s.len() && s.subrange(i, i + q.len()) =~= q
}

/// `q` occurs somewhere in `s` as a contiguous run of characters.
pub open spec fn has_substring(s: Seq<char>, q: Seq<char>) -> bool {
    exists|i: int| occurs_at(s, q, i)
}

/// `s` begins with `p`.
pub open spec fn has_prefix(s: Seq<char>, p: Seq<char>) -> bool {
    p.len() <= s.len() && s.take(p.len() as int) =~= p
}

/// The characters of `s`, in order.
pub fn chars_of(s: &str) -> (v: Vec<char>)
    ensures
        v@ == s@,
{
    let mut v: Vec<char> = Vec::new();
    for c in it: s.chars()
        invariant
            v@ == it.seq().take(it.index() as int),
            it.seq() == s@,
    {
        v.push(c);
    }
    v
}

/// A string holding exactly the characters of `chars`.
pub fn string_from_chars(chars: &[char]) -> (s: String)
    ensures
        s@ == chars@,
{
    let mut s = String::new();
    let mut i: usize = 0;
    while i < chars.len()
        invariant
            i <= chars@.len(),
            s@ == chars@.take(i as int),
        decreases chars@.len() - i,
    {
        s.push(chars[i]);
        i = i + 1;
        assert(chars@.take(i as int) =~= chars@.take((i - 1) as int).push(chars@[i - 1]));
    }
    assert(chars@.take(i as int) =~= chars@);
    s
}

/// Whether two character sequences are equal.
pub fn chars_equal(a: &[char], b: &[char]) -> (r: bool)
    ensures
        r == (a@ == b@),
{
    if a.len() != b.len() {
        return false;
    }
    let mut i: usize = 0;
    while i < a.len()
        invariant
            a@.len() == b@.len(),
            i <= a@.len(),
            forall|j: int| 0 <= j < i ==> a@[j] == b@[j],
        decreases a@.len() - i,
    {
        if a[i] != b[i] {
            return false;
        }
        i = i + 1;
    }
    assert(a@ =~= b@);
    true
}

/// Whether `q` occurs in `s` at position `i`.
pub fn occurs_at_exec(s: &[char], q: &[char], i: usize) -> (r: bool)
    ensures
        r == occurs_at(s@, q@, i as int),
{
    if i > s.len() || q.len() > s.len() - i {
        return false;
    }
    let mut k: usize = 0;
    while k < q.len()
        invariant
            i + q@.len() <= s@.len(),
            s@.len() <= usize::MAX,
            k <= q@.len(),
            forall|j: int| 0 <= j < k ==> s@[i + j] == q@[j],
        decreases q@.len() - k,
    {
        if s[i + k] != q[k] {
            assert(s@.subrange(i as int, i + q@.len())[k as int] != q@[k as int]);
            return false;
        }
        k = k + 1;
    }
    assert(s@.subrange(i as int, i + q@.len()) =~= q@);
    true
}

/// Whether `q` occurs somewhere in `s`.
pub fn contains_chars(s: &[char], q: &[char]) -> (r: bool)
    ensures
        r == has_substring(s@, q@),
{
    if q.len() > s.len() {
        assert forall|i: int| !occurs_at(s@, q@, i) by {}
        return false;
    }
    let mut i: usize = 0;
    while i <= s.len() - q.len()
        invariant
            q@.len() <= s@.len(),
            i <= s@.len() - q@.len() + 1,
            forall|j: int| 0 <= j < i ==> !occurs_at(s@, q@, j),
        decreases s@.len() - q@.len() + 1 - i,
    {
        if occurs_at_exec(s, q, i) {
            return true;
        }
        i = i + 1;
    }
    assert forall|j: int| !occurs_at(s@, q@, j) by {
        if 0 <= j && j < i {
        }
    }
    false
}

/// Whether `s` begins with `p`.
pub fn starts_with_chars(s: &[char], p: &[char]) -> (r: bool)
    ensures
        r == has_prefix(s@, p@),
{
    let r = occurs_at_exec(s, p, 0);
    assert(s@.subrange(0, p@.len() as int) =~= s@.take(p@.len() as int));
    r
}

/// Whether `c` occurs in `s`.
pub fn contains_char(s: &[char], c: char) -> (r: bool)
    ensures
        r == s@.contains(c),
{
    let mut i: usize = 0;
    while i < s.len()
        invariant
            i <= s@.len(),
            forall|j: int| 0 <= j < i ==> s@[j] != c,
        decreases s@.len() - i,
    {
        if s[i] == c {
            assert(s@[i as int] == c);
            return true;
        }
        i = i + 1;
    }
    false
}

/// The pieces of `s` between newline characters, in order; there is always one
/// more piece than there are newlines.
pub open spec fn newline_pieces(s: Seq<char>) -> Seq<Seq<char>>
    decreases s.len(),
{
    if s.len() == 0 {
        seq![Seq::<char>::empty()]
    } else {
        let p = newline_pieces(s.drop_last());
        if s.last() == '\n' {
            p.push(Seq::<char>::empty())
        } else {
            p.update(p.len() - 1, p.last().push(s.last()))
        }
    }
}

/// A piece that was ended by a newline loses one carriage return before it.
pub open spec fn strip_cr(piece: Seq<char>) -> Seq<char> {
    if piece.len() > 0 && piece.last() == '\r' {
        piece.drop_last()
    } else {
        piece
    }
}

/// The lines of a text: split at `\n` or `\r\n`, terminators removed; a final
/// line ending is optional, so an empty last piece is not a line.
pub open spec fn text_lines(s: Seq<char>) -> Seq<Seq<char>> {
    let p = newline_pieces(s);
    let n = if p.last().len() == 0 { p.len() - 1 } else { p.len() as int };
    Seq::new(n as nat, |i: int| if i < p.len() - 1 { strip_cr(p[i]) } else { p[i] })
}

pub proof fn lemma_newline_pieces_nonempty(s: Seq<char>)
    ensures
        newline_pieces(s).len() >= 1,
    decreases s.len(),
{
    if s.len() > 0 {
        lemma_newline_pieces_nonempty(s.drop_last());
    }
}

fn strip_cr_exec(piece: Vec<char>) -> (r: Vec<char>)
    ensures
        r@ == strip_cr(piece@),
{
    let mut piece = piece;
    if piece.len() > 0 && piece[piece.len() - 1] == '\r' {
        piece.pop();
    }
    piece
}

/// The lines of `s`, as `text_lines` describes them.
pub fn split_lines(s: &[char]) -> (lines: Vec<Vec<char>>)
    ensures
        lines.deep_view() == text_lines(s@),
{
    let mut lines: Vec<Vec<char>> = Vec::new();
    let mut cur: Vec<char> = Vec::new();
    let mut i: usize = 0;
    proof {
        assert(s@.take(0) =~= Seq::<char>::empty());
    }
    while i < s.len()
        invariant
            i <= s@.len(),
            newline_pieces(s@.take(i as int)).len() == lines@.len() + 1,
            forall|k: int|
                0 <= k < lines@.len() ==> #[trigger] lines@[k]@ == strip_cr(
                    newline_pieces(s@.take(i as int))[k],
                ),
            cur@ == newline_pieces(s@.take(i as int)).last(),
        decreases s@.len() - i,
    {
        let c = s[i];
        proof {
            assert(s@.take(i + 1).drop_last() =~= s@.take(i as int));
            lemma_newline_pieces_nonempty(s@.take(i as int));
        }
        if c == '\n' {
            let finished = strip_cr_exec(cur);
            lines.push(finished);
            cur = Vec::new();
        } else {
            cur.push(c);
        }
        i = i + 1;
    }
    proof {
        assert(s@.take(i as int) =~= s@);
    }
    if cur.len() > 0 {
        lines.push(cur);
    }
    proof {
        let t = text_lines(s@);
        assert(lines@.len() == t.len());
        assert forall|k: int| 0 <= k < t.len() implies #[trigger] lines.deep_view()[k] == t[k] by {
            assert(lines.deep_view()[k] =~= lines@[k]@);
        }
    }
    assert(lines.deep_view() =~= text_lines(s@));
    lines
}

/// The lower-case form of an ASCII character; other characters are kept.
pub open spec fn ascii_lower(c: char) -> char {
    if 'A' <= c && c <= 'Z' {
        ((c as u32) + 32) as char
    } else {
        c
    }
}

/// Whether every character of `s` is ASCII.
pub open spec fn all_ascii(s: Seq<char>) -> bool {
    forall|i: int| 0 <= i < s.len() ==> (s[i] as u32) < 128
}

/// What `str::to_lowercase` returns for a string with the characters `s`.
pub uninterp spec fn lowercase(s: Seq<char>) -> Seq<char>;

/// Calls `str::to_lowercase`. Its result is taken to be `lowercase` of the
/// argument's characters (Unicode lower-casing, a function of the text alone);
/// on ASCII text it maps `A`..`Z` to `a`..`z` and keeps every other character.
#[verifier::external_body]
pub(crate) fn to_lowercase(s: &str) -> (r: String)
    ensures
        r@ == lowercase(s@),
        all_ascii(s@) ==> r@ == s@.map_values(|c: char| ascii_lower(c)),
{
    s.to_lowercase()
}

/// `a` and `b` agree on their first `i` characters.
pub open spec fn agree_upto(a: Seq<char>, b: Seq<char>, i: int) -> bool {
    0 <= i <= a.len() && i <= b.len() && forall|j: int| 0 <= j < i ==> a[j] == b[j]
}

/// `a` comes strictly before `b` in the order of code points, character by
/// character, a proper prefix first (the order of `str`).
pub open spec fn chars_less(a: Seq<char>, b: Seq<char>) -> bool {
    exists|i: int|
        #[trigger] agree_upto(a, b, i) && ((i == a.len() && i < b.len()) || (i < a.len() && i
            < b.len() && a[i] < b[i]))
}

pub proof fn lemma_chars_less_transitive(a: Seq<char>, b: Seq<char>, c: Seq<char>)
    requires
        chars_less(a, b),
        chars_less(b, c),
    ensures
        chars_less(a, c),
{
    let i = choose|i: int|
        #[trigger] agree_upto(a, b, i) && ((i == a.len() && i < b.len()) || (i < a.len() && i
            < b.len() && a[i] < b[i]));
    let k = choose|k: int|
        #[trigger] agree_upto(b, c, k) && ((k == b.len() && k < c.len()) || (k < b.len() && k
            < c.len() && b[k] < c[k]));
    if i <= k {
        assert(agree_upto(a, c, i));
    } else {
        assert(agree_upto(a, c, k));
    }
}

pub proof fn lemma_chars_less_irreflexive(a: Seq<char>)
    ensures
        !chars_less(a, a),
{
}

/// Three-way result of comparing two character sequences.
pub enum CharsOrder {
    Less,
    Equal,
    Greater,
}

/// Compares `a` with `b` in the order of `chars_less`.
pub fn compare_chars(a: &[char], b: &[char]) -> (r: CharsOrder)
    ensures
        r is Less ==> chars_less(a@, b@),
        r is Equal ==> a@ == b@,
        r is Greater ==> chars_less(b@, a@),
{
    let mut i: usize = 0;
    while i < a.len() && i < b.len()
        invariant
            agree_upto(a@, b@, i as int),
        decreases a@.len() - i,
    {
        if a[i] != b[i] {
            if a[i] < b[i] {
                assert(agree_upto(a@, b@, i as int));
                return CharsOrder::Less;
            } else {
                assert(agree_upto(b@, a@, i as int));
                return CharsOrder::Greater;
            }
        }
        i = i + 1;
    }
    if i < b.len() {
        assert(agree_upto(a@, b@, i as int));
        CharsOrder::Less
    } else if i < a.len() {
        assert(agree_upto(b@, a@, i as int));
        CharsOrder::Greater
    } else {
        assert(a@ =~= b@);
        CharsOrder::Equal
    }
}

/// The character of the decimal digit `k`.
pub open spec fn digit_char(k: int) -> char {
    ((k + 48) as u32) as char
}

/// The decimal digits of `n`, without leading zeros.
pub open spec fn decimal(n: u8) -> Seq<char> {
    let v = n as int;
    if v >= 100 {
        seq![digit_char(v / 100), digit_char((v / 10) % 10), digit_char(v % 10)]
    } else if v >= 10 {
        seq![digit_char(v / 10), digit_char(v % 10)]
    } else {
        seq![digit_char(v)]
    }
}

fn digit(k: u8) -> (c: char)
    requires
        k < 10,
    ensures
        c == digit_char(k as int),
{
    let table = ['0', '1', '2', '3', '4', '5', '6', '7', '8', '9'];
    table[k as usize]
}

/// Appends the decimal digits of `n` to `s`.
pub fn push_decimal(s: &mut String, n: u8)
    ensures
        final(s)@ == old(s)@ + decimal(n),
{
    if n >= 100 {
        s.push(digit(n / 100));
        s.push(digit((n / 10) % 10));
        s.push(digit(n % 10));
    } else if n >= 10 {
        s.push(digit(n / 10));
        s.push(digit(n % 10));
    } else {
        s.push(digit(n));
    }
    assert(s@ =~= old(s)@ + decimal(n));
}

} // verus!
