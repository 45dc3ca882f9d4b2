//! What the library decides about man pages: which files name commands, and
//! how a page is asked for.
use vstd::prelude::*;

use crate::search::views;
use crate::text::{
    chars_less, chars_of, compare_chars, decimal, lemma_chars_less_irreflexive,
    lemma_chars_less_transitive, push_decimal, string_from_chars, CharsOrder,
};

verus! {

/// `s` ends with `p`.
pub open spec fn has_suffix(s: Seq<char>, p: Seq<char>) -> bool {
    p.len() <= s.len() && s.skip(s.len() - p.len()) =~= p
}

/// A file name of a compressed man page: it ends in `.gz`.
pub open spec fn is_page_file(name: Seq<char>) -> bool {
    has_suffix(name, seq!['.', 'g', 'z'])
}

/// How many characters come before the first `.` (all of them when there is none).
pub open spec fn dot_position(s: Seq<char>) -> int
    decreases s.len(),
{
    if s.len() == 0 {
        0
    } else if s[0] == '.' {
        0
    } else {
        1 + dot_position(s.drop_first())
    }
}

/// The command that a page file is for: its name up to the first `.`.
pub open spec fn command_of(name: Seq<char>) -> Seq<char> {
    name.take(dot_position(name))
}

/// Every entry comes strictly before the next, so none is repeated.
pub open spec fn strictly_sorted(s: Seq<Seq<char>>) -> bool {
    forall|a: int, b: int| 0 <= a < b < s.len() ==> chars_less(#[trigger] s[a], #[trigger] s[b])
}

/// `y` is the command of one of the first `n` names that are page files.
pub open spec fn named_among(names: Seq<Seq<char>>, n: int, y: Seq<char>) -> bool {
    exists|i: int| 0 <= i < n && i < names.len() && is_page_file(names[i]) && y == command_of(#[trigger] names[i])
}

/// `out` lists, sorted and without repeats, the commands of the page files
/// among `names`.
pub open spec fn page_commands(names: Seq<Seq<char>>, out: Seq<Seq<char>>) -> bool {
    &&& strictly_sorted(out)
    &&& forall|y: Seq<char>| #[trigger] out.contains(y) <==> named_among(names, names.len() as int, y)
}

proof fn lemma_dot_position(s: Seq<char>, i: int)
    requires
        0 <= i <= s.len(),
        i == s.len() || s[i] == '.',
        forall|j: int| 0 <= j < i ==> s[j] != '.',
    ensures
        dot_position(s) == i,
    decreases i,
{
    if i > 0 {
        lemma_dot_position(s.drop_first(), i - 1);
    }
}

/// The command named by a file name: the characters before the first `.`.
fn command_part(name: &[char]) -> (c: Vec<char>)
    ensures
        c@ == command_of(name@),
{
    let mut c: Vec<char> = Vec::new();
    let mut i: usize = 0;
    while i < name.len() && name[i] != '.'
        invariant
            i <= name@.len(),
            c@ == name@.take(i as int),
            forall|j: int| 0 <= j < i ==> name@[j] != '.',
        decreases name@.len() - i,
    {
        c.push(name[i]);
        i = i + 1;
        assert(c@ =~= name@.take(i as int));
    }
    proof {
        lemma_dot_position(name@, i as int);
    }
    c
}

fn ends_with_gz(name: &[char]) -> (r: bool)
    ensures
        r == is_page_file(name@),
{
    let n = name.len();
    if n < 3 {
        return false;
    }
    let r = name[n - 3] == '.' && name[n - 2] == 'g' && name[n - 1] == 'z';
    assert(r == (name@.skip(n - 3) =~= seq!['.', 'g', 'z']));
    r
}

/// Puts `x` into the sorted list `sorted` unless it is there already.
fn insert_sorted(sorted: &mut Vec<Vec<char>>, x: Vec<char>)
    requires
        strictly_sorted(old(sorted).deep_view()),
    ensures
        strictly_sorted(final(sorted).deep_view()),
        forall|y: Seq<char>|
            #[trigger] final(sorted).deep_view().contains(y) <==> (old(sorted).deep_view().contains(y)
                || y == x@),
{
    let ghost before = sorted.deep_view();
    let mut k: usize = 0;
    let mut above = false;
    while k < sorted.len() && !above
        invariant
            before == sorted.deep_view(),
            before == old(sorted).deep_view(),
            strictly_sorted(before),
            k <= sorted@.len(),
            forall|j: int| 0 <= j < k ==> chars_less(#[trigger] before[j], x@),
            above ==> k < before.len() && chars_less(x@, before[k as int]),
        decreases sorted@.len() - k + if above { 0int } else { 1int },
    {
        assert(sorted@[k as int]@ == before[k as int]);
        match compare_chars(sorted[k].as_slice(), x.as_slice()) {
            CharsOrder::Less => {
                k = k + 1;
            },
            CharsOrder::Equal => {
                assert(before[k as int] == x@);
                return ;
            },
            CharsOrder::Greater => {
                above = true;
            },
        }
    }
    let ghost old_vec = sorted@;
    sorted.insert(k, x);
    let ghost after = sorted.deep_view();
    proof {
        assert forall|i: int| 0 <= i < after.len() implies after[i] == before.insert(k as int, x@)[i] by {
            assert(after[i] == sorted@[i]@);
            if i < k {
                assert(before[i] == old_vec[i]@);
            } else if i > k {
                assert(before[i - 1] == old_vec[i - 1]@);
            }
        }
        assert(after =~= before.insert(k as int, x@));
        assert forall|a: int, b: int| 0 <= a < b < after.len() implies chars_less(
            #[trigger] after[a],
            #[trigger] after[b],
        ) by {
            if b < k {
            } else if a < k && b == k {
            } else if a < k {
                assert(chars_less(before[a], before[b - 1]));
            } else if a == k {
                if b - 1 > k {
                    assert(chars_less(before[k as int], before[b - 1]));
                    lemma_chars_less_transitive(x@, before[k as int], before[b - 1]);
                }
            } else {
                assert(chars_less(before[a - 1], before[b - 1]));
            }
        }
        assert forall|y: Seq<char>| #[trigger] after.contains(y) <==> (before.contains(y) || y == x@) by {
            if after.contains(y) {
                let t = choose|t: int| 0 <= t < after.len() && after[t] == y;
                if t < k {
                    assert(before[t] == y);
                } else if t > k {
                    assert(before[t - 1] == y);
                }
            }
            if before.contains(y) {
                let t = choose|t: int| 0 <= t < before.len() && before[t] == y;
                if t < k {
                    assert(after[t] == y);
                } else {
                    assert(after[t + 1] == y);
                }
            }
            if y == x@ {
                assert(after[k as int] == y);
            }
        }
    }
}

/// The commands of the man page files among `file_names`: names ending in
/// `.gz`, cut at their first `.`, sorted, each once.
pub fn command_names(file_names: &[String]) -> (res: Vec<String>)
    ensures
        page_commands(views(file_names@), views(res@)),
{
    let ghost names = views(file_names@);
    let mut sorted: Vec<Vec<char>> = Vec::new();
    let mut i: usize = 0;
    while i < file_names.len()
        invariant
            names == views(file_names@),
            i <= names.len(),
            strictly_sorted(sorted.deep_view()),
            forall|y: Seq<char>|
                #[trigger] sorted.deep_view().contains(y) <==> named_among(names, i as int, y),
        decreases names.len() - i,
    {
        let name = chars_of(file_names[i].as_str());
        assert(name@ == names[i as int]);
        if ends_with_gz(name.as_slice()) {
            let cmd = command_part(name.as_slice());
            let ghost prev = sorted.deep_view();
            insert_sorted(&mut sorted, cmd);
            proof {
                assert forall|y: Seq<char>| #[trigger] sorted.deep_view().contains(y) <==> named_among(names, i + 1, y) by {
                    if y == cmd@ {
                        assert(0 <= i < i + 1 && is_page_file(names[i as int]) && y == command_of(names[i as int]));
                    }
                    if named_among(names, i + 1, y) {
                        let j = choose|j: int| 0 <= j < i + 1 && j < names.len() && is_page_file(names[j]) && y == command_of(#[trigger] names[j]);
                        if j < i {
                            assert(named_among(names, i as int, y));
                            assert(prev.contains(y));
                        }
                    }
                    if prev.contains(y) {
                        let j = choose|j: int| 0 <= j < i && j < names.len() && is_page_file(names[j]) && y == command_of(#[trigger] names[j]);
                        assert(named_among(names, i + 1, y));
                    }
                }
            }
        } else {
            proof {
                assert forall|y: Seq<char>| #[trigger] sorted.deep_view().contains(y) <==> named_among(names, i + 1, y) by {
                    if named_among(names, i + 1, y) {
                        let j = choose|j: int| 0 <= j < i + 1 && j < names.len() && is_page_file(names[j]) && y == command_of(#[trigger] names[j]);
                        assert(j < i);
                        assert(named_among(names, i as int, y));
                    }
                    if sorted.deep_view().contains(y) {
                        let j = choose|j: int| 0 <= j < i && j < names.len() && is_page_file(names[j]) && y == command_of(#[trigger] names[j]);
                        assert(named_among(names, i + 1, y));
                    }
                }
            }
        }
        i = i + 1;
    }
    let mut res: Vec<String> = Vec::new();
    let mut k: usize = 0;
    while k < sorted.len()
        invariant
            k <= sorted@.len(),
            views(res@) == sorted.deep_view().take(k as int),
            names == views(file_names@),
            strictly_sorted(sorted.deep_view()),
            forall|y: Seq<char>|
                #[trigger] sorted.deep_view().contains(y) <==> named_among(names, names.len() as int, y),
        decreases sorted@.len() - k,
    {
        let s = string_from_chars(sorted[k].as_slice());
        let ghost before = res@;
        res.push(s);
        assert(sorted.deep_view()[k as int] == sorted@[k as int]@);
        assert(views(res@) =~= views(before).push(sorted@[k as int]@));
        assert(sorted.deep_view().take(k + 1) =~= sorted.deep_view().take(k as int).push(
            sorted.deep_view()[k as int],
        ));
        k = k + 1;
    }
    assert(sorted.deep_view().take(k as int) =~= sorted.deep_view());
    let ghost out = views(res@);
    assert(out == sorted.deep_view());
    res
}

/// The shell command that prints a page as plain text:
/// `man [section] <command> | col -b`.
pub open spec fn man_command_text(cmd: Seq<char>, section: Option<u8>) -> Seq<char> {
    let sec = match section {
        Some(n) => decimal(n) + seq![' '],
        None => Seq::empty(),
    };
    "man "@ + sec + cmd + " | col -b"@
}

/// Builds the shell command that prints the page of `cmd`, in `section` when
/// one is given.
pub fn man_command_line(cmd: &str, section: Option<u8>) -> (line: String)
    ensures
        line@ == man_command_text(cmd@, section),
{
    let mut line = String::from_str("man ");
    match section {
        Some(n) => {
            push_decimal(&mut line, n);
            line.push(' ');
        },
        None => {},
    }
    line.append(cmd);
    line.append(" | col -b");
    assert(line@ =~= man_command_text(cmd@, section));
    line
}

/// The text shown when the page of `cmd` cannot be printed.
pub fn missing_page_message(cmd: &str) -> (msg: String)
    ensures
        msg@ == "Man page for '"@ + cmd@ + "' not found."@,
{
    let mut msg = String::from_str("Man page for '");
    msg.append(cmd);
    msg.append("' not found.");
    msg
}

/// `chars_less` never holds both ways.
proof fn lemma_chars_less_asymmetric(a: Seq<char>, b: Seq<char>)
    ensures
        !(chars_less(a, b) && chars_less(b, a)),
{
    if chars_less(a, b) && chars_less(b, a) {
        lemma_chars_less_transitive(a, b, a);
        lemma_chars_less_irreflexive(a);
    }
}

proof fn lemma_sorted_lists_equal(s1: Seq<Seq<char>>, s2: Seq<Seq<char>>)
    requires
        strictly_sorted(s1),
        strictly_sorted(s2),
        forall|y: Seq<char>| s1.contains(y) <==> s2.contains(y),
    ensures
        s1 == s2,
    decreases s1.len(),
{
    if s1.len() == 0 {
        if s2.len() > 0 {
            assert(s2.contains(s2[0]));
        }
        assert(s1 =~= s2);
    } else {
        assert(s1.contains(s1[0]));
        assert(s2.contains(s2[0]));
        let t = choose|t: int| 0 <= t < s2.len() && s2[t] == s1[0];
        let u = choose|u: int| 0 <= u < s1.len() && s1[u] == s2[0];
        if t > 0 && u > 0 {
            assert(chars_less(s2[0], s2[t]));
            assert(chars_less(s1[0], s1[u]));
            lemma_chars_less_asymmetric(s1[0], s2[0]);
        }
        assert(s1[0] == s2[0]);
        let q1 = s1.drop_first();
        let q2 = s2.drop_first();
        assert forall|y: Seq<char>| q1.contains(y) implies q2.contains(y) by {
            let a = choose|a: int| 0 <= a < q1.len() && q1[a] == y;
            assert(chars_less(s1[0], s1[a + 1]));
            assert(s2.contains(y));
            let b = choose|b: int| 0 <= b < s2.len() && s2[b] == y;
            if b == 0 {
                lemma_chars_less_irreflexive(y);
            }
            assert(q2[b - 1] == y);
        }
        assert forall|y: Seq<char>| q2.contains(y) implies q1.contains(y) by {
            let a = choose|a: int| 0 <= a < q2.len() && q2[a] == y;
            assert(chars_less(s2[0], s2[a + 1]));
            assert(s1.contains(y));
            let b = choose|b: int| 0 <= b < s1.len() && s1[b] == y;
            if b == 0 {
                lemma_chars_less_irreflexive(y);
            }
            assert(q1[b - 1] == y);
        }
        assert forall|a: int, b: int| 0 <= a < b < q1.len() implies chars_less(
            #[trigger] q1[a],
            #[trigger] q1[b],
        ) by {
            assert(chars_less(s1[a + 1], s1[b + 1]));
        }
        assert forall|a: int, b: int| 0 <= a < b < q2.len() implies chars_less(
            #[trigger] q2[a],
            #[trigger] q2[b],
        ) by {
            assert(chars_less(s2[a + 1], s2[b + 1]));
        }
        lemma_sorted_lists_equal(q1, q2);
        assert(s1 =~= seq![s1[0]] + q1);
        assert(s2 =~= seq![s2[0]] + q2);
    }
}

/// The command list made from a set of file names is fully determined: only
/// one list satisfies `page_commands`.
pub proof fn lemma_page_commands_unique(
    names: Seq<Seq<char>>,
    out1: Seq<Seq<char>>,
    out2: Seq<Seq<char>>,
)
    requires
        page_commands(names, out1),
        page_commands(names, out2),
    ensures
        out1 == out2,
{
    lemma_sorted_lists_equal(out1, out2);
}

} // verus!
